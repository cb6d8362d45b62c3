//! `uvr r list`: the versions of R that are installed, and those that can be.

use vstd::prelude::*;

use crate::r_version::detector::RInstallation;
use crate::strings;
use crate::text;

verus! {

/// A version of R that can be installed.
#[derive(Debug, PartialEq, Eq)]
pub struct AvailableRow {
    pub version: String,
    pub installed: bool,
    /// It is a channel that is rebuilt all the time, not a release.
    pub unstable: bool,
}

/// What an [`AvailableRow`] holds.
pub struct Row {
    pub version: Seq<char>,
    pub installed: bool,
    pub unstable: bool,
}

impl DeepView for AvailableRow {
    type V = Row;

    open spec fn deep_view(&self) -> Row {
        Row { version: self.version@, installed: self.installed, unstable: self.unstable }
    }
}

/// An R of that version is installed.
pub open spec fn has_version(installed: Seq<RInstallation>, version: Seq<char>) -> bool {
    exists|i: int| 0 <= i < installed.len() && (#[trigger] installed[i]).version@ == version
}

/// Whether an R of that version is installed.
fn is_installed(installed: &Vec<RInstallation>, version: &str) -> (r: bool)
    ensures
        r == has_version(installed@, version@),
{
    let mut i: usize = 0;
    while i < installed.len()
        invariant
            i <= installed@.len(),
            forall|j: int| 0 <= j < i ==> (#[trigger] installed@[j]).version@ != version@,
        decreases installed@.len() - i,
    {
        if text::same_str(installed[i].version.as_str(), version) {
            assert(installed@[i as int].version@ == version@);
            return true;
        }
        i += 1;
    }
    false
}

/// The rows of what can be installed: the channels, and then the releases from the
/// last of the list to the first. Channels run ahead of the releases but are no
/// newer release, so they are never sorted in among them.
pub open spec fn rows(
    rolling: Seq<Seq<char>>,
    stable: Seq<Seq<char>>,
    installed: Seq<RInstallation>,
) -> Seq<Row> {
    Seq::new(
        rolling.len(),
        |i: int|
            Row {
                version: rolling[i],
                installed: has_version(installed, rolling[i]),
                unstable: true,
            },
    ) + Seq::new(
        stable.len(),
        |i: int|
            Row {
                version: stable[stable.len() - 1 - i],
                installed: has_version(installed, stable[stable.len() - 1 - i]),
                unstable: false,
            },
    )
}

/// The rows of what can be installed.
pub fn available_rows(
    rolling: &Vec<String>,
    stable: &Vec<String>,
    installed: &Vec<RInstallation>,
) -> (r: Vec<AvailableRow>)
    ensures
        r.deep_view() == rows(
            text::string_views(rolling@),
            text::string_views(stable@),
            installed@,
        ),
{
    let ghost all = rows(text::string_views(rolling@), text::string_views(stable@), installed@);
    let mut out: Vec<AvailableRow> = Vec::new();
    let mut i: usize = 0;
    while i < rolling.len()
        invariant
            i <= rolling@.len(),
            all == rows(text::string_views(rolling@), text::string_views(stable@), installed@),
            out@.len() == i,
            forall|j: int| 0 <= j < i ==> (#[trigger] out@[j]).deep_view() == all[j],
        decreases rolling@.len() - i,
    {
        let version = rolling[i].clone();
        let here = is_installed(installed, version.as_str());
        out.push(AvailableRow { version, installed: here, unstable: true });
        i += 1;
    }
    let n = stable.len();
    let mut k: usize = 0;
    while k < n
        invariant
            k <= n == stable@.len(),
            all == rows(text::string_views(rolling@), text::string_views(stable@), installed@),
            out@.len() == rolling@.len() + k,
            forall|j: int| 0 <= j < out@.len() ==> (#[trigger] out@[j]).deep_view() == all[j],
        decreases n - k,
    {
        let version = stable[n - 1 - k].clone();
        let here = is_installed(installed, version.as_str());
        out.push(AvailableRow { version, installed: here, unstable: false });
        k += 1;
    }
    assert(out.deep_view() =~= all);
    out
}

/// A channel in quotes.
pub open spec fn quoted(name: Seq<char>) -> Seq<char> {
    "`"@ + name + "`"@
}

/// The hint about the channels, if there are any. It names those that can be
/// installed.
pub fn rolling_hint(rolling: &Vec<String>) -> (r: Option<String>)
    ensures
        r.deep_view() == hint_of(text::string_views(rolling@)),
{
    if rolling.len() == 0 {
        return None;
    }
    let mut names: Vec<String> = Vec::new();
    let mut i: usize = 0;
    while i < rolling.len()
        invariant
            i <= rolling@.len(),
            names@.len() == i,
            forall|j: int| 0 <= j < i ==> (#[trigger] names@[j])@ == quoted(rolling@[j]@),
        decreases rolling@.len() - i,
    {
        let mut name = "`".to_owned();
        name.append(rolling[i].as_str());
        name.append("`");
        names.push(name);
        i += 1;
    }
    let ghost all = text::string_views(rolling@);
    assert(text::string_views(names@) =~= Seq::new(all.len(), |i: int| quoted(all[i])));
    let mut m = text::join(names.as_slice(), " and ");
    m.append(" are rebuilt continuously — installing one pins a moving target, not a release.");
    Some(m)
}

/// What is shown beside an R that is installed: who manages it.
pub fn installation_tag(i: &RInstallation) -> (r: String)
    ensures
        r@ == tag_of(*i),
{
    if i.managed {
        "[uvr-managed]".to_owned()
    } else {
        let mut tag = "[system: ".to_owned();
        tag.append(i.binary.as_str());
        tag.append("]");
        tag
    }
}

/// Every version that can be installed has a row, and a channel stands above every
/// release.
pub proof fn law_channels_stand_above_releases(
    rolling: Seq<Seq<char>>,
    stable: Seq<Seq<char>>,
    installed: Seq<RInstallation>,
)
    ensures
        rows(rolling, stable, installed).len() == rolling.len() + stable.len(),
        forall|i: int|
            0 <= i < rolling.len() + stable.len() ==> ((#[trigger] rows(
                rolling,
                stable,
                installed,
            )[i]).unstable == (i < rolling.len())),
{
}

/// What is to be listed.
#[derive(Debug, PartialEq, Eq)]
pub enum ListQuery {
    /// What is installed.
    Installed(Vec<RInstallation>),
    /// What can be installed, with what is installed.
    Available { rolling: Vec<String>, stable: Vec<String>, installed: Vec<RInstallation> },
}

/// A list to show.
#[derive(Debug, PartialEq, Eq)]
pub enum Listing {
    /// There is nothing to list: a warning, and what to do about it.
    Nothing { warning: String, advice: String },
    /// Versions with what is shown beside them.
    Installed { title: String, tagged: Vec<(String, String)> },
    /// Versions that can be installed.
    Available { title: String, rows: Vec<AvailableRow>, hint: Option<String> },
}

/// What is shown beside an R that is installed.
pub open spec fn tag_of(i: RInstallation) -> Seq<char> {
    if i.managed {
        "[uvr-managed]"@
    } else {
        "[system: "@ + i.binary@ + "]"@
    }
}

/// The hint about the channels.
pub open spec fn hint_of(rolling: Seq<Seq<char>>) -> Option<Seq<char>> {
    if rolling.len() == 0 {
        None
    } else {
        Some(
            strings::join(Seq::new(rolling.len(), |i: int| quoted(rolling[i])), " and "@)
                + " are rebuilt continuously — installing one pins a moving target, not a release."@,
        )
    }
}

/// What is shown in answer to a query.
pub open spec fn is_listing(query: ListQuery, r: Listing) -> bool {
    match query {
        ListQuery::Installed(installed) => if installed@.len() == 0 {
            r matches Listing::Nothing { warning, advice } && warning@
                == "No R installations found."@ && advice@
                == "Install R with: uvr r install <version>"@
        } else {
            r matches Listing::Installed { title, tagged } && title@ == "Installed R versions"@
                && tagged.deep_view() == Seq::new(
                installed@.len(),
                |i: int| (installed@[i].version@, tag_of(installed@[i])),
            )
        },
        ListQuery::Available { rolling, stable, installed } => {
            &&& r matches Listing::Available { title, rows: shown, hint }
            &&& title@ == "Available R versions"@
            &&& shown.deep_view() == rows(
                text::string_views(rolling@),
                text::string_views(stable@),
                installed@,
            )
            &&& hint.deep_view() == hint_of(text::string_views(rolling@))
        },
    }
}

/// Decides what is shown.
pub fn run(query: ListQuery) -> (r: Listing)
    ensures
        is_listing(query, r),
{
    match query {
        ListQuery::Installed(installed) => {
            if installed.len() == 0 {
                return Listing::Nothing {
                    warning: "No R installations found.".to_owned(),
                    advice: "Install R with: uvr r install <version>".to_owned(),
                };
            }
            let mut tagged: Vec<(String, String)> = Vec::new();
            let mut i: usize = 0;
            while i < installed.len()
                invariant
                    i <= installed@.len(),
                    tagged@.len() == i,
                    forall|j: int|
                        0 <= j < i ==> (#[trigger] tagged@[j]).deep_view() == (
                            installed@[j].version@,
                            tag_of(installed@[j]),
                        ),
                decreases installed@.len() - i,
            {
                tagged.push((installed[i].version.clone(), installation_tag(&installed[i])));
                i += 1;
            }
            assert(tagged.deep_view() =~= Seq::new(
                installed@.len(),
                |i: int| (installed@[i].version@, tag_of(installed@[i])),
            ));
            Listing::Installed { title: "Installed R versions".to_owned(), tagged }
        },
        ListQuery::Available { rolling, stable, installed } => {
            let rows = available_rows(&rolling, &stable, &installed);
            let hint = rolling_hint(&rolling);
            Listing::Available { title: "Available R versions".to_owned(), rows, hint }
        },
    }
}

/// Every channel has the row of its number, every release the one of its number from
/// the end, and a row is marked as installed where an R of its version is.
pub proof fn law_every_version_has_its_row(
    rolling: Seq<Seq<char>>,
    stable: Seq<Seq<char>>,
    installed: Seq<RInstallation>,
    i: int,
    k: int,
)
    ensures
        ({
            let all = rows(rolling, stable, installed);
            let n = rolling.len() as int;
            let m = stable.len() as int;
            &&& 0 <= i < n ==> all[i].version == rolling[i] && all[i].unstable
            &&& 0 <= i < m ==> all[n + m - 1 - i].version == stable[i] && !all[n + m - 1
                - i].unstable
            &&& 0 <= i < n + m && 0 <= k < installed.len() && installed[k].version@
                == all[i].version ==> all[i].installed
            &&& 0 <= i < n + m && all[i].installed ==> exists|j: int|
                0 <= j < installed.len() && (#[trigger] installed[j]).version@ == all[i].version
        }),
{
}

/// The hint is given where there are channels, and names every one of them, in quotes.
pub proof fn law_hint_names_every_channel(rolling: Seq<Seq<char>>, i: int)
    requires
        0 <= i < rolling.len(),
    ensures
        hint_of(rolling) matches Some(m) && strings::contains_text(
            m,
            seq!['`'] + rolling[i] + seq!['`'],
        ),
        hint_of(seq![]) is None,
{
    reveal_strlit("`");
    let names = Seq::new(rolling.len(), |i: int| quoted(rolling[i]));
    let list = strings::join(names, " and "@);
    let end = " are rebuilt continuously — installing one pins a moving target, not a release."@;
    assert(names[i] =~= seq!['`'] + rolling[i] + seq!['`']);
    strings::lemma_join_contains(names, " and "@, i);
    strings::lemma_contains_middle(seq![], list, end);
    assert(Seq::<char>::empty() + list + end =~= list + end);
    strings::lemma_contains_transitive(list + end, list, names[i]);
}

/// Beside an R stands where it is, unless this program manages it.
pub proof fn law_tag_tells_where_an_r_is(i: RInstallation)
    ensures
        i.managed ==> tag_of(i) == "[uvr-managed]"@,
        !i.managed ==> strings::contains_text(tag_of(i), i.binary@) && strings::starts_with(
            tag_of(i),
            "[system: "@,
        ) && tag_of(i).last() == ']',
{
    reveal_strlit("]");
    strings::lemma_contains_middle("[system: "@, i.binary@, "]"@);
    let t = "[system: "@ + i.binary@ + "]"@;
    assert(t.take("[system: "@.len() as int) =~= "[system: "@);
}

/// What is installed is listed version by version, each with its tag, and nothing is
/// listed only where nothing is installed. What can be installed is listed row by row,
/// with the hint.
pub proof fn law_what_is_listed(query: ListQuery, r: Listing)
    requires
        is_listing(query, r),
    ensures
        r is Nothing <==> (query matches ListQuery::Installed(all) && all@.len() == 0),
        r is Available <==> query is Available,
        query matches ListQuery::Installed(all) ==> (r matches Listing::Installed { tagged, .. }
            ==> tagged@.len() == all@.len() && forall|i: int|
            0 <= i < all@.len() ==> (#[trigger] tagged@[i]).0@ == all@[i].version@
                && tagged@[i].1@ == tag_of(all@[i])),
        query matches ListQuery::Available { rolling, stable, installed } ==> (
        r matches Listing::Available { rows: shown, hint, .. } && shown@.len() == rolling@.len()
            + stable@.len() && (hint is Some <==> rolling@.len() > 0)),
{
    if let ListQuery::Installed(all) = query {
        if let Listing::Installed { tagged, .. } = r {
            let d = tagged.deep_view();
            assert(d.len() == tagged@.len());
            assert forall|i: int| 0 <= i < all@.len() implies (#[trigger] tagged@[i]).0@
                == all@[i].version@ && tagged@[i].1@ == tag_of(all@[i]) by {
                assert(d[i] == tagged@[i].deep_view());
            }
        }
    }
    if let ListQuery::Available { rolling, stable, installed } = query {
        if let Listing::Available { rows: shown, hint, .. } = r {
            assert(shown.deep_view().len() == shown@.len());
        }
    }
}

} // verus!
