//! Which Linux this is, as `/etc/os-release` tells it.

use vstd::prelude::*;

use crate::strings;
use crate::text;

verus! {

/// The fields of `/etc/os-release` that matter here, without their quotes. Either
/// can be empty: rolling releases have no version.
#[derive(Debug, Clone, PartialEq, Eq)]
pub struct OsRelease {
    /// `ID` in small letters, such as `ubuntu`, `debian` or `arch`.
    pub id: String,
    /// `VERSION_ID` as it is, such as `22.04`, `12` or `3.21`.
    pub version_id: String,
}

/// What an [`OsRelease`] holds.
pub struct Release {
    pub id: Seq<char>,
    pub version_id: Seq<char>,
}

impl DeepView for OsRelease {
    type V = Release;

    open spec fn deep_view(&self) -> Release {
        Release { id: self.id@, version_id: self.version_id@ }
    }
}

impl Default for OsRelease {
    fn default() -> (r: Self)
        ensures
            r.deep_view() == (Release { id: seq![], version_id: seq![] }),
    {
        let r = OsRelease { id: String::new(), version_id: String::new() };
        assert(r.id@ =~= seq![]);
        assert(r.version_id@ =~= seq![]);
        r
    }
}

/// A value without the quotes around it.
pub open spec fn unquoted(value: Seq<char>) -> Seq<char> {
    strings::trim_of(value, seq!['"'])
}

/// What the lines tell. A later line of a field stands.
pub open spec fn release_of(lines: Seq<Seq<char>>) -> Release
    decreases lines.len(),
{
    if lines.len() == 0 {
        Release { id: seq![], version_id: seq![] }
    } else {
        let before = release_of(lines.drop_last());
        if let Some(v) = strings::strip_prefix(lines.last(), "ID="@) {
            Release { id: text::lowered(unquoted(v)), version_id: before.version_id }
        } else if let Some(v) = strings::strip_prefix(lines.last(), "VERSION_ID="@) {
            Release { id: before.id, version_id: unquoted(v) }
        } else {
            before
        }
    }
}

impl OsRelease {
    /// Reads `/etc/os-release`. A field that is not there is empty.
    pub fn parse(content: &str) -> (r: Self)
        ensures
            r.deep_view() == release_of(strings::lines(content@)),
    {
        let cs = text::chars_of(content);
        let lines = text::lines(cs.as_slice());
        let ghost all = text::views(lines@);
        let mut out = OsRelease::default();
        let quotes: Vec<char> = vec!['"'];
        let mut i: usize = 0;
        assert(all.take(0) =~= seq![]);
        assert(quotes@ =~= seq!['"']);
        while i < lines.len()
            invariant
                i <= lines@.len(),
                quotes@ == seq!['"'],
                all == text::views(lines@),
                out.deep_view() == release_of(all.take(i as int)),
            decreases lines@.len() - i,
        {
            let line = lines[i];
            assert(all.take(i + 1).drop_last() =~= all.take(i as int));
            assert(all.take(i + 1).last() == line@);
            if let Some(v) = text::strip_prefix(line, "ID=") {
                let id = text::string_of(text::trim_of(v, quotes.as_slice()));
                out.id = id.as_str().to_lowercase();
            } else if let Some(v) = text::strip_prefix(line, "VERSION_ID=") {
                out.version_id = text::string_of(text::trim_of(v, quotes.as_slice()));
            }
            i += 1;
        }
        assert(all.take(i as int) =~= all);
        out
    }

    /// Whether the system is not identified.
    pub fn is_empty(&self) -> (r: bool)
        ensures
            r == (self.id@.len() == 0),
    {
        self.id.as_str().is_empty()
    }
}

/// A line of another field, such as `ID_LIKE=`, changes nothing, wherever it
/// stands.
pub proof fn law_other_fields_change_nothing(
    before: Seq<Seq<char>>,
    line: Seq<char>,
    after: Seq<Seq<char>>,
)
    requires
        !strings::starts_with(line, "ID="@),
        !strings::starts_with(line, "VERSION_ID="@),
    ensures
        release_of(before + seq![line] + after) == release_of(before + after),
    decreases after.len(),
{
    let with = before + seq![line] + after;
    let without = before + after;
    if after.len() == 0 {
        assert(with.drop_last() =~= before);
        assert(without =~= before);
    } else {
        law_other_fields_change_nothing(before, line, after.drop_last());
        assert(with.drop_last() =~= before + seq![line] + after.drop_last());
        assert(without.drop_last() =~= before + after.drop_last());
    }
}

/// A line of a field tells its value, without the quotes around it, and leaves the other
/// field as it was. The identifier is told in small letters. A later line stands.
pub proof fn law_line_tells_its_field(
    lines: Seq<Seq<char>>,
    quote: Seq<char>,
    value: Seq<char>,
)
    requires
        quote == seq!['"'] || quote.len() == 0,
        value.len() > 0 ==> value[0] != '"' && value.last() != '"',
    ensures
        ({
            let before = release_of(lines);
            let id = release_of(lines.push("ID="@ + (quote + value + quote)));
            let version = release_of(lines.push("VERSION_ID="@ + (quote + value + quote)));
            &&& id.id == text::lowered(value)
            &&& id.version_id == before.version_id
            &&& version.id == before.id
            &&& version.version_id == value
        }),
        release_of(seq![]).id.len() == 0,
        release_of(seq![]).version_id.len() == 0,
{
    reveal_strlit("ID=");
    reveal_strlit("VERSION_ID=");
    let v = quote + value + quote;
    let set = seq!['"'];
    assert(set[0] == '"');
    strings::law_trim_of_takes_the_set_away(quote, value, quote, set);
    let a = "ID="@ + v;
    let b = "VERSION_ID="@ + v;
    assert(a.take(3) =~= "ID="@ && a.skip(3) =~= v);
    assert(b.take(11) =~= "VERSION_ID="@ && b.skip(11) =~= v);
    assert(!strings::starts_with(b, "ID="@)) by {
        if strings::starts_with(b, "ID="@) {
            assert(b.take(3)[0] == b[0]);
        }
    }
    assert(lines.push(a).drop_last() =~= lines);
    assert(lines.push(b).drop_last() =~= lines);
}

/// In small letters the capitals of a text of ASCII characters are small and every
/// other character is as it was.
pub proof fn law_small_letters(s: Seq<char>, i: int)
    requires
        vstd::utf8::is_ascii_chars(s),
        0 <= i < s.len(),
    ensures
        text::lowered(s).len() == s.len(),
        65 <= s[i] as int <= 90 ==> text::lowered(s)[i] as int == s[i] as int + 32,
        !(65 <= s[i] as int <= 90) ==> text::lowered(s)[i] == s[i],
{
}

} // verus!
