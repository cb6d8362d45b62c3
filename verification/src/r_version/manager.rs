//! Installing and removing versions of R.

use vstd::prelude::*;

use crate::error::UvrError;
use crate::r_version::detector;
use crate::r_version::detector::RInstallation;
use crate::strings;
use crate::strmap;
use crate::strmap::Standing;
use crate::text;

verus! {

/// The version that is in a directory: its name, or what was asked for.
pub open spec fn version_of(dir_name: Option<Seq<char>>, asked: Seq<char>) -> Seq<char> {
    match dir_name {
        Some(n) => n,
        None => asked,
    }
}

/// The version that was installed: the name of the directory that it is in, and what
/// was asked for where the directory has no name.
pub fn installed_version(dir_name: Option<String>, asked: &str) -> (r: String)
    ensures
        r@ == version_of(dir_name.deep_view(), asked@),
{
    match dir_name {
        Some(n) => n,
        None => asked.to_owned(),
    }
}

/// The binary of the first installation of a version, or an error where there is none.
pub open spec fn is_binary(
    installed: Seq<RInstallation>,
    version: Seq<char>,
    r: Result<String, UvrError>,
) -> bool {
    match r {
        Ok(b) => exists|i: int|
            #![trigger installed[i]]
            0 <= i < installed.len() && installed[i].version@ == version && b@
                == installed[i].binary@ && forall|j: int|
                0 <= j < i ==> (#[trigger] installed[j]).version@ != version,
        Err(e) => {
            &&& e matches UvrError::Other(m)
            &&& m@ == "R "@ + version + " is not installed"@
            &&& forall|i: int|
                0 <= i < installed.len() ==> (#[trigger] installed[i]).version@ != version
        },
    }
}

/// The binary of a version, from what is installed.
pub fn binary_for_version(installed: &Vec<RInstallation>, version: &str) -> (r: Result<
    String,
    UvrError,
>)
    ensures
        is_binary(installed@, version@, r),
{
    let mut i: usize = 0;
    while i < installed.len()
        invariant
            i <= installed@.len(),
            forall|j: int| 0 <= j < i ==> (#[trigger] installed@[j]).version@ != version@,
        decreases installed@.len() - i,
    {
        if text::same_str(installed[i].version.as_str(), version) {
            let ghost found = installed@[i as int];
            assert(found.version@ == version@);
            return Ok(installed[i].binary.clone());
        }
        i += 1;
    }
    let mut m = "R ".to_owned();
    m.append(version);
    m.append(" is not installed");
    Err(UvrError::Other(m))
}

/// The version is one segment of a path that does not lead up or out, and is not
/// hidden.
pub open spec fn is_removable(version: Seq<char>) -> bool {
    &&& version.len() > 0
    &&& !version.contains('/')
    &&& !version.contains('\\')
    &&& !strings::contains_text(version, ".."@)
    &&& version[0] != '.'
}

/// Refuses a version that could name anything but an installation.
pub fn check_removable(version: &str) -> (r: Result<(), UvrError>)
    ensures
        is_removable(version@) ==> r is Ok,
        !is_removable(version@) ==> (r matches Err(UvrError::Other(m)) && m@
            == "Invalid R version: "@ + text::debug_form(version@)),
{
    let cs = text::chars_of(version);
    let dots = text::chars_of("..");
    if cs.len() == 0 || text::has_char(cs.as_slice(), '/') || text::has_char(cs.as_slice(), '\\')
        || text::contains_text(cs.as_slice(), dots.as_slice()) || cs[0] == '.' {
        let mut m = "Invalid R version: ".to_owned();
        m.append(text::debug_text(version).as_str());
        return Err(UvrError::Other(m));
    }
    Ok(())
}

/// The names that extend a partial version, in their order.
pub open spec fn extending(partial: Seq<char>, names: Seq<Seq<char>>) -> Seq<Seq<char>>
    decreases names.len(),
{
    if names.len() == 0 {
        seq![]
    } else {
        let before = extending(partial, names.drop_last());
        if detector::extends_version(partial, names.last()) {
            before.push(names.last())
        } else {
            before
        }
    }
}

/// `a` does not stand after `b`.
pub open spec fn in_order(a: Seq<char>, b: Seq<char>) -> bool {
    a == b || strmap::key_before(a, b)
}

/// `sorted` are the `names` in the order of strings.
pub open spec fn is_sorting(sorted: Seq<Seq<char>>, names: Seq<Seq<char>>) -> bool {
    &&& sorted.to_multiset() == names.to_multiset()
    &&& forall|i: int, j: int|
        #![trigger sorted[i], sorted[j]]
        0 <= i < j < sorted.len() ==> in_order(sorted[i], sorted[j])
}

/// Puts a name at its place among sorted ones.
fn insert_sorted(sorted: &mut Vec<String>, name: String)
    requires
        forall|i: int, j: int|
            #![trigger old(sorted)@[i], old(sorted)@[j]]
            0 <= i < j < old(sorted)@.len() ==> in_order(old(sorted)@[i]@, old(sorted)@[j]@),
    ensures
        forall|i: int, j: int|
            #![trigger final(sorted)@[i], final(sorted)@[j]]
            0 <= i < j < final(sorted)@.len() ==> in_order(final(sorted)@[i]@, final(sorted)@[j]@),
        text::string_views(final(sorted)@).to_multiset() == text::string_views(
            old(sorted)@,
        ).to_multiset().insert(name@),
{
    let ghost before = sorted@;
    let mut i: usize = 0;
    while i < sorted.len()
        invariant_except_break
            sorted@ == before,
            i <= before.len(),
            forall|j: int| 0 <= j < i ==> in_order(#[trigger] before[j]@, name@),
        ensures
            sorted@ == before,
            i <= before.len(),
            forall|j: int| 0 <= j < i ==> in_order(#[trigger] before[j]@, name@),
            i < before.len() ==> strmap::key_before(name@, before[i as int]@),
        decreases sorted@.len() - i,
    {
        match strmap::standing(sorted[i].as_str(), name.as_str()) {
            Standing::After => {
                break;
            },
            _ => {},
        }
        i += 1;
    }
    sorted.insert(i, name);
    proof {
        let after = sorted@;
        assert(after =~= before.insert(i as int, name));
        assert forall|a: int, b: int|
            #![trigger after[a], after[b]]
            0 <= a < b < after.len() implies in_order(after[a]@, after[b]@) by {
            lemma_inserted_in_order(before, i as int, name, a, b);
        }
        let x = text::string_views(before);
        assert(text::string_views(after) =~= x.insert(i as int, name@));
        lemma_insert_multiset(x, i as int, name@);
    }
}

/// Names stay in order when one is put at its place.
proof fn lemma_inserted_in_order(before: Seq<String>, i: int, name: String, a: int, b: int)
    requires
        forall|i: int, j: int|
            #![trigger before[i], before[j]]
            0 <= i < j < before.len() ==> in_order(before[i]@, before[j]@),
        0 <= i <= before.len(),
        forall|j: int| 0 <= j < i ==> in_order(#[trigger] before[j]@, name@),
        i < before.len() ==> strmap::key_before(name@, before[i]@),
        0 <= a < b < before.len() + 1,
    ensures
        in_order(before.insert(i, name)[a]@, before.insert(i, name)[b]@),
{
    if a == i {
        assert(in_order(name@, before[i]@));
        if b - 1 > i {
            assert(in_order(before[i]@, before[b - 1]@));
            if before[i]@ != before[b - 1]@ {
                strmap::lemma_key_transitive(name@, before[i]@, before[b - 1]@);
            }
        }
    }
}

/// A name put in is one more name.
proof fn lemma_insert_multiset(s: Seq<Seq<char>>, i: int, x: Seq<char>)
    requires
        0 <= i <= s.len(),
    ensures
        s.insert(i, x).to_multiset() == s.to_multiset().insert(x),
{
    broadcast use vstd::seq_lib::group_to_multiset_ensures;

    s.to_multiset_ensures();
    s.insert(i, x).to_multiset_ensures();
    assert(s.insert(i, x).remove(i) =~= s);
    assert(s.insert(i, x).to_multiset().remove(x) =~= s.to_multiset());
    assert(s.insert(i, x)[i] == x);
    assert(s.insert(i, x).to_multiset() =~= s.to_multiset().insert(x));
}

/// The installation that a version means, among the names of what is installed: the
/// one that extends it. With none, or with several, there is no telling which.
pub open spec fn is_choice(
    version: Seq<char>,
    dir: Seq<char>,
    names: Seq<Seq<char>>,
    r: Result<String, UvrError>,
) -> bool {
    let found = extending(version, names);
    if found.len() == 0 {
        r matches Err(UvrError::Other(m)) && m@ == "R "@ + version + " is not installed at "@ + dir
    } else if found.len() == 1 {
        r matches Ok(n) && n@ == found[0]
    } else {
        &&& r matches Err(UvrError::Other(m))
        &&& exists|sorted: Seq<Seq<char>>| #[trigger]
            is_sorting(sorted, found) && m@ == "R "@ + version + " is ambiguous: "@ + strings::join(
                sorted,
                ", "@,
            ) + " are installed. Specify the full version to uninstall."@
    }
}

/// The installation that a partial version means. `dir` is where the version would
/// be if it were a full one.
pub fn choose_installation(version: &str, dir: &str, names: &Vec<String>) -> (r: Result<
    String,
    UvrError,
>)
    ensures
        is_choice(version@, dir@, text::string_views(names@), r),
{
    let ghost all = text::string_views(names@);
    let mut found: Vec<String> = Vec::new();
    let mut i: usize = 0;
    assert(text::string_views(found@) =~= seq![]);
    assert(all.take(0) =~= seq![]);
    while i < names.len()
        invariant
            i <= names@.len(),
            all == text::string_views(names@),
            forall|a: int, b: int|
                #![trigger found@[a], found@[b]]
                0 <= a < b < found@.len() ==> in_order(found@[a]@, found@[b]@),
            text::string_views(found@).to_multiset() == extending(
                version@,
                all.take(i as int),
            ).to_multiset(),
        decreases names@.len() - i,
    {
        assert(all.take(i + 1).drop_last() =~= all.take(i as int));
        assert(all.take(i + 1).last() == names@[i as int]@);
        if detector::version_matches_prefix(version, names[i].as_str()) {
            insert_sorted(&mut found, names[i].clone());
            proof {
                extending(version@, all.take(i as int)).to_multiset_ensures();
            }
        }
        i += 1;
    }
    assert(all.take(i as int) =~= all);
    let ghost sorted = text::string_views(found@);
    let ghost wanted = extending(version@, all);
    proof {
        sorted.to_multiset_ensures();
        wanted.to_multiset_ensures();
        assert(is_sorting(sorted, wanted));
    }
    if found.len() == 0 {
        let mut m = "R ".to_owned();
        m.append(version);
        m.append(" is not installed at ");
        m.append(dir);
        Err(UvrError::Other(m))
    } else if found.len() == 1 {
        proof {
            assert(sorted.to_multiset().count(sorted[0]) > 0) by {
                assert(sorted.contains(sorted[0]));
            }
            assert(wanted.contains(sorted[0]));
        }
        Ok(found[0].clone())
    } else {
        let mut m = "R ".to_owned();
        m.append(version);
        m.append(" is ambiguous: ");
        m.append(text::join(found.as_slice(), ", ").as_str());
        m.append(" are installed. Specify the full version to uninstall.");
        Err(UvrError::Other(m))
    }
}

/// What became of removing a directory.
#[derive(Debug, PartialEq, Eq)]
pub enum Removal {
    Removed,
    /// It was not there.
    Gone,
    /// It could not be removed, for this reason.
    Failed(String),
}

/// What removing a directory comes to.
pub open spec fn is_outcome(dir: Seq<char>, removal: Removal, r: Result<(), UvrError>) -> bool {
    match removal {
        Removal::Failed(e) => r matches Err(UvrError::Other(m)) && m@ == "Failed to remove "@ + dir
            + ": "@ + e@,
        _ => r is Ok,
    }
}

/// What became of removing an installation. One that is not there is removed: that
/// is what was asked for.
pub fn after_removal(dir: &str, removal: Removal) -> (r: Result<(), UvrError>)
    ensures
        is_outcome(dir@, removal, r),
{
    match removal {
        Removal::Failed(e) => {
            let mut m = "Failed to remove ".to_owned();
            m.append(dir);
            m.append(": ");
            m.append(e.as_str());
            Err(UvrError::Other(m))
        },
        Removal::Removed => Ok(()),
        Removal::Gone => Ok(()),
    }
}

/// A version that may be removed names one directory below the one that holds the
/// installations.
pub proof fn law_removable_stays_inside(version: Seq<char>)
    requires
        is_removable(version),
    ensures
        strings::split(version, '/') == seq![version],
        version != "."@,
        version != ".."@,
{
    assert forall|i: int| 0 <= i < version.len() implies version[i] != '/' by {
        assert(version.contains(version[i]));
    }
    strings::lemma_first_at_is(version, '/', version.len() as int);
    reveal_strlit(".");
    reveal_strlit("..");
}

/// The version that a partial one means is among those that are installed, and
/// begins with the partial one.
pub proof fn law_choice_is_installed(version: Seq<char>, names: Seq<Seq<char>>, i: int)
    requires
        0 <= i < extending(version, names).len(),
    ensures
        names.contains(extending(version, names)[i]),
        detector::extends_version(version, extending(version, names)[i]),
    decreases names.len(),
{
    let before = extending(version, names.drop_last());
    if i < before.len() {
        law_choice_is_installed(version, names.drop_last(), i);
        let k = choose|k: int|
            0 <= k < names.drop_last().len() && names.drop_last()[k] == before[i];
        assert(names[k] == before[i]);
    } else {
        assert(names[names.len() - 1] == names.last());
    }
}

/// How far removing an installation has come.
#[derive(Debug, PartialEq, Eq)]
pub enum UninstallState {
    Start,
    /// The directory that holds the installations is looked for.
    FindingBase,
    /// The installation of the version is looked for.
    LookingUp,
    /// What is installed is listed. `dir` is where the version would be.
    Listing { dir: String },
    /// An installation is removed.
    Removing { name: String },
    Finished,
}

/// What happened.
#[derive(Debug, PartialEq, Eq)]
pub enum UninstallEvent {
    Begin,
    /// Whether there is a directory that holds the installations.
    Base(bool),
    /// Whether the installation is there, and the directory that it would be in.
    Looked { exists: bool, dir: String },
    /// The names of what is installed.
    Names(Vec<String>),
    /// What became of removing a directory.
    Removed { dir: String, removal: Removal },
}

/// What to do next.
#[derive(Debug, PartialEq, Eq)]
pub enum UninstallAction {
    FindBase,
    /// Look for the installation of this name.
    LookUp(String),
    /// List what is installed.
    List,
    /// Remove the installation of this name.
    Remove(String),
    /// The name of the installation that is gone.
    Done(Result<String, UvrError>),
}

/// The event is one that the state waits for.
pub open spec fn uninstall_expects(s: UninstallState, e: UninstallEvent) -> bool {
    match s {
        UninstallState::Start => e is Begin,
        UninstallState::FindingBase => e is Base,
        UninstallState::LookingUp => e is Looked,
        UninstallState::Listing { .. } => e is Names,
        UninstallState::Removing { .. } => e is Removed,
        UninstallState::Finished => false,
    }
}

/// The state and the action are about removing this installation.
pub open spec fn removes(t: UninstallState, a: UninstallAction, name: Seq<char>) -> bool {
    &&& t matches UninstallState::Removing { name: kept }
    &&& kept@ == name
    &&& a matches UninstallAction::Remove(removed)
    &&& removed@ == name
}

/// The action tells of an error.
pub open spec fn fails(t: UninstallState, a: UninstallAction, message: Seq<char>) -> bool {
    &&& t == UninstallState::Finished
    &&& a matches UninstallAction::Done(Err(UvrError::Other(m)))
    &&& m@ == message
}

/// From one state an event leads to another state and an action. The installation of
/// the version itself is removed where it is there, and else the only one that the
/// version is the beginning of.
pub open spec fn uninstall_move(
    version: Seq<char>,
    s: UninstallState,
    e: UninstallEvent,
    t: UninstallState,
    a: UninstallAction,
) -> bool {
    match (s, e) {
        (UninstallState::Start, UninstallEvent::Begin) => if is_removable(version) {
            t == UninstallState::FindingBase && a == UninstallAction::FindBase
        } else {
            fails(t, a, "Invalid R version: "@ + text::debug_form(version))
        },
        (UninstallState::FindingBase, UninstallEvent::Base(known)) => if known {
            t == UninstallState::LookingUp && (a matches UninstallAction::LookUp(n) && n@
                == version)
        } else {
            fails(t, a, "Cannot determine r-versions directory"@)
        },
        (UninstallState::LookingUp, UninstallEvent::Looked { exists, dir }) => if exists {
            removes(t, a, version)
        } else {
            t == UninstallState::Listing { dir } && a == UninstallAction::List
        },
        (UninstallState::Listing { dir }, UninstallEvent::Names(names)) => {
            let found = extending(version, text::string_views(names@));
            if found.len() == 1 {
                removes(t, a, found[0])
            } else {
                &&& t == UninstallState::Finished
                &&& a matches UninstallAction::Done(r)
                &&& is_choice(version, dir@, text::string_views(names@), r)
            }
        },
        (UninstallState::Removing { name }, UninstallEvent::Removed { dir, removal }) => {
            match removal {
                Removal::Failed(m) => fails(t, a, "Failed to remove "@ + dir@ + ": "@ + m@),
                _ => t == UninstallState::Finished && (a matches UninstallAction::Done(Ok(n)) && n@
                    == name@),
            }
        },
        _ => false,
    }
}

/// Removes an installation of R. What is to be done is told by [`Uninstall::step`],
/// which is told in turn what came of it.
#[derive(Debug, PartialEq, Eq)]
pub struct Uninstall {
    pub version: String,
    pub state: UninstallState,
}

impl Uninstall {
    /// Removing has not begun.
    pub fn new(version: &str) -> (r: Self)
        ensures
            r.version@ == version@,
            r.state == UninstallState::Start,
    {
        Uninstall { version: version.to_owned(), state: UninstallState::Start }
    }

    /// Goes on by one step.
    pub fn step(&mut self, event: UninstallEvent) -> (action: UninstallAction)
        requires
            uninstall_expects(old(self).state, event),
        ensures
            uninstall_move(
                old(self).version@,
                old(self).state,
                event,
                final(self).state,
                action,
            ),
            final(self).version == old(self).version,
    {
        let mut state = UninstallState::Finished;
        std::mem::swap(&mut state, &mut self.state);
        match (state, event) {
            (UninstallState::Start, _) => match check_removable(self.version.as_str()) {
                Ok(_) => {
                    self.state = UninstallState::FindingBase;
                    UninstallAction::FindBase
                },
                Err(e) => UninstallAction::Done(Err(e)),
            },
            (UninstallState::FindingBase, UninstallEvent::Base(known)) => if known {
                self.state = UninstallState::LookingUp;
                UninstallAction::LookUp(self.version.clone())
            } else {
                UninstallAction::Done(
                    Err(UvrError::Other("Cannot determine r-versions directory".to_owned())),
                )
            },
            (UninstallState::LookingUp, UninstallEvent::Looked { exists, dir }) => if exists {
                self.state = UninstallState::Removing { name: self.version.clone() };
                UninstallAction::Remove(self.version.clone())
            } else {
                self.state = UninstallState::Listing { dir };
                UninstallAction::List
            },
            (UninstallState::Listing { dir }, UninstallEvent::Names(names)) => {
                match choose_installation(self.version.as_str(), dir.as_str(), &names) {
                    Ok(name) => {
                        self.state = UninstallState::Removing { name: name.clone() };
                        UninstallAction::Remove(name)
                    },
                    Err(e) => UninstallAction::Done(Err(e)),
                }
            },
            (UninstallState::Removing { name }, UninstallEvent::Removed { dir, removal }) => {
                match after_removal(dir.as_str(), removal) {
                    Ok(_) => UninstallAction::Done(Ok(name)),
                    Err(e) => UninstallAction::Done(Err(e)),
                }
            },
            (_, _) => UninstallAction::FindBase,
        }
    }
}

/// An installation is removed only if it is the one of the version, or the only one
/// that the version is the beginning of: nothing is removed on a guess.
pub proof fn law_nothing_is_removed_on_a_guess(
    version: Seq<char>,
    s: UninstallState,
    e: UninstallEvent,
    t: UninstallState,
    a: UninstallAction,
)
    requires
        uninstall_move(version, s, e, t, a),
        a is Remove,
    ensures
        ({
            let name = a->Remove_0@;
            ||| name == version && (e matches UninstallEvent::Looked { exists, .. } && exists)
            ||| e matches UninstallEvent::Names(names) && extending(
                version,
                text::string_views(names@),
            ) == seq![name]
        }),
{
    if let UninstallEvent::Names(names) = e {
        let found = extending(version, text::string_views(names@));
        assert(found =~= seq![a->Remove_0@]);
    }
}

/// A version that could name anything but an installation is refused before anything
/// is looked for.
pub proof fn law_bad_versions_are_refused_at_once(
    version: Seq<char>,
    t: UninstallState,
    a: UninstallAction,
)
    requires
        uninstall_move(version, UninstallState::Start, UninstallEvent::Begin, t, a),
        !is_removable(version),
    ensures
        t == UninstallState::Finished,
        a matches UninstallAction::Done(Err(_)),
{
}

/// The version of an installation is the name of its directory, whatever was asked for.
pub proof fn law_directory_tells_the_version(name: Seq<char>, asked: Seq<char>)
    ensures
        version_of(Some(name), asked) == name,
        version_of(None, asked) == asked,
{
}

/// A version that is installed has a binary, and it is that of an installation of just
/// this version, the first of them. One that is not is told by its name.
pub proof fn law_binary_is_of_the_version(
    installed: Seq<RInstallation>,
    version: Seq<char>,
    r: Result<String, UvrError>,
    k: int,
)
    requires
        is_binary(installed, version, r),
    ensures
        0 <= k < installed.len() && installed[k].version@ == version ==> r is Ok,
        0 <= k < installed.len() && installed[k].version@ == version && (forall|j: int|
            0 <= j < k ==> (#[trigger] installed[j]).version@ != version) ==> (r matches Ok(b)
            && b@ == installed[k].binary@),
        r is Ok ==> exists|i: int|
            #![trigger installed[i]]
            0 <= i < installed.len() && installed[i].version@ == version,
        r matches Err(e) ==> (e matches UvrError::Other(m) && strings::contains_text(m@, version)),
{
    strings::lemma_contains_middle("R "@, version, " is not installed"@);
}

/// A version of R can be removed. A text that has a separator in it, or two points side
/// by side, or that is empty or hidden, cannot.
pub proof fn law_what_can_be_removed(version: Seq<char>, a: Seq<char>, b: Seq<char>)
    ensures
        detector::is_r_version(version) ==> is_removable(version),
        !is_removable(a + seq!['/'] + b),
        !is_removable(a + seq!['\\'] + b),
        !is_removable(a + seq!['.', '.'] + b),
        !is_removable(seq!['.'] + b),
        !is_removable(seq![]),
{
    reveal_strlit("..");
    let n = a.len() as int;
    assert((a + seq!['/'] + b)[n] == '/');
    assert((a + seq!['\\'] + b)[n] == '\\');
    assert(".."@ =~= seq!['.', '.']);
    strings::lemma_contains_middle(a, ".."@, b);
    if detector::is_r_version(version) {
        detector::law_characters_of_a_version(version);
        if strings::contains_text(version, ".."@) {
            let i = choose|i: int| strings::occurs_at(version, ".."@, i);
            assert(version.subrange(i, i + 2)[0] == version[i]);
            assert(version.subrange(i, i + 2)[1] == version[i + 1]);
        }
    }
}

/// What is installed is looked through name by name: each that goes on after the
/// partial version with a point is found, in its place, and no other.
pub proof fn law_names_are_looked_through(
    partial: Seq<char>,
    a: Seq<Seq<char>>,
    b: Seq<Seq<char>>,
    rest: Seq<char>,
    other: Seq<char>,
)
    ensures
        extending(partial, a + b) == extending(partial, a) + extending(partial, b),
        extending(partial, seq![partial + seq!['.'] + rest]) == seq![partial + seq!['.'] + rest],
        !(other.len() > partial.len() && other.take(partial.len() as int) == partial
            && other[partial.len() as int] == '.') ==> extending(partial, seq![other]).len() == 0,
    decreases b.len(),
{
    let both = a + b;
    if b.len() == 0 {
        assert(both =~= a);
        assert(extending(partial, a) + extending(partial, b) =~= extending(partial, a));
    } else {
        law_names_are_looked_through(partial, a, b.drop_last(), rest, other);
        assert(both.drop_last() =~= a + b.drop_last());
        assert(both.last() == b.last());
        assert(extending(partial, both) =~= extending(partial, a) + extending(partial, b));
    }
    let one = partial + seq!['.'] + rest;
    let n = partial.len() as int;
    reveal_with_fuel(extending, 2);
    detector::law_partial_version(partial, rest, other);
    assert(seq![one].drop_last() =~= seq![]);
    assert(seq![other].drop_last() =~= seq![]);
    assert(extending(partial, seq![one]) =~= seq![one]);
    if detector::extends_version(partial, other) {
        assert(other.take(n) =~= partial);
    }
}

/// The only name that the version is the beginning of is the choice. With none the
/// error tells the version and where it was looked for; with several it tells the
/// version and every one of them.
pub proof fn law_choice(
    version: Seq<char>,
    dir: Seq<char>,
    names: Seq<Seq<char>>,
    r: Result<String, UvrError>,
)
    requires
        is_choice(version, dir, names, r),
    ensures
        ({
            let found = extending(version, names);
            match r {
                Ok(n) => found == seq![n@],
                Err(e) => {
                    &&& found.len() != 1
                    &&& e matches UvrError::Other(m)
                    &&& strings::contains_text(m@, version)
                    &&& found.len() == 0 ==> strings::contains_text(m@, dir)
                    &&& forall|i: int|
                        0 <= i < found.len() ==> strings::contains_text(m@, #[trigger] found[i])
                },
            }
        }),
{
    let found = extending(version, names);
    if let Ok(n) = r {
        assert(found =~= seq![n@]);
    }
    if let Err(UvrError::Other(m)) = r {
        if found.len() == 0 {
            let mid = " is not installed at "@;
            strings::lemma_contains_middle("R "@, version, mid + dir);
            assert(m@ =~= "R "@ + version + (mid + dir));
            strings::lemma_contains_middle("R "@ + version + mid, dir, seq![]);
            assert(m@ =~= "R "@ + version + mid + dir + Seq::<char>::empty());
        } else {
            let mid = " is ambiguous: "@;
            let end = " are installed. Specify the full version to uninstall."@;
            let sorted = choose|sorted: Seq<Seq<char>>| #[trigger]
                is_sorting(sorted, found) && m@ == "R "@ + version + mid + strings::join(
                    sorted,
                    ", "@,
                ) + end;
            let list = strings::join(sorted, ", "@);
            strings::lemma_contains_middle("R "@, version, mid + list + end);
            assert(m@ =~= "R "@ + version + (mid + list + end));
            strings::lemma_contains_middle("R "@ + version + mid, list, end);
            assert forall|i: int| 0 <= i < found.len() implies strings::contains_text(
                m@,
                #[trigger] found[i],
            ) by {
                sorted.to_multiset_ensures();
                found.to_multiset_ensures();
                assert(found.contains(found[i]));
                assert(sorted.to_multiset().count(found[i]) > 0);
                assert(sorted.contains(found[i]));
                let j = choose|j: int| 0 <= j < sorted.len() && sorted[j] == found[i];
                strings::lemma_join_contains(sorted, ", "@, j);
                strings::lemma_contains_transitive(m@, list, found[i]);
            }
        }
    }
}

/// Removing fails only where the directory could not be removed, and then tells which
/// directory and why. One that is gone is removed.
pub proof fn law_removal(dir: Seq<char>, removal: Removal, r: Result<(), UvrError>)
    requires
        is_outcome(dir, removal, r),
    ensures
        r is Ok <==> removal is Removed || removal is Gone,
        removal matches Removal::Failed(e) ==> {
            &&& r matches Err(UvrError::Other(m))
            &&& strings::contains_text(m@, dir)
            &&& strings::contains_text(m@, e@)
        },
{
    if let Removal::Failed(e) = removal {
        let front = "Failed to remove "@;
        let w = front + dir + ": "@ + e@;
        strings::lemma_contains_middle(front, dir, ": "@ + e@);
        assert(w =~= front + dir + (": "@ + e@));
        strings::lemma_contains_middle(front + dir + ": "@, e@, seq![]);
        assert(w =~= front + dir + ": "@ + e@ + Seq::<char>::empty());
    }
}

/// How a removal goes: the version is looked up under its own name, what is installed
/// is listed only where it is not there, and what is said to be gone at the end is what
/// was removed.
pub proof fn law_removal_goes_step_by_step(
    version: Seq<char>,
    s: UninstallState,
    e: UninstallEvent,
    t: UninstallState,
    a: UninstallAction,
)
    requires
        uninstall_move(version, s, e, t, a),
    ensures
        a is FindBase <==> s is Start && is_removable(version),
        a is FindBase ==> t is FindingBase,
        a is LookUp <==> e == UninstallEvent::Base(true),
        a matches UninstallAction::LookUp(n) ==> t is LookingUp && n@ == version,
        a is List <==> (e matches UninstallEvent::Looked { exists, .. } && !exists),
        a is List ==> (t matches UninstallState::Listing { dir } && e
            matches UninstallEvent::Looked { dir: d, .. } && dir == d),
        a matches UninstallAction::Remove(n) ==> (t matches UninstallState::Removing { name }
            && name@ == n@),
        (e matches UninstallEvent::Looked { exists, .. } && exists) ==> (
        a matches UninstallAction::Remove(n) && n@ == version),
        (e matches UninstallEvent::Names(names) && extending(
            version,
            text::string_views(names@),
        ).len() == 1) ==> a is Remove,
        a is Done ==> t is Finished,
        s matches UninstallState::Removing { name } ==> (a matches UninstallAction::Done(Ok(n))
            ==> n@ == name@),
        (e matches UninstallEvent::Removed { removal, .. } && removal !is Failed) ==> (
        a matches UninstallAction::Done(Ok(_))),
        (a matches UninstallAction::Done(Ok(_))) ==> s is Removing,
        (e matches UninstallEvent::Removed { dir, removal } && removal is Failed) ==> (
        a matches UninstallAction::Done(Err(UvrError::Other(m))) && strings::contains_text(
            m@,
            e->Removed_dir@,
        )),
{
    if let UninstallEvent::Removed { dir, removal } = e {
        if let Removal::Failed(m) = removal {
            let front = "Failed to remove "@;
            strings::lemma_contains_middle(front, dir@, ": "@ + m@);
            assert(front + dir@ + ": "@ + m@ =~= front + dir@ + (": "@ + m@));
        }
    }
}

} // verus!
