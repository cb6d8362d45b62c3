//! Which version of R is meant, and whether it fits a project.

use vstd::prelude::*;

use crate::resolver;
use crate::strings;
use crate::text;

verus! {

/// An R on this machine.
#[derive(Debug, Clone, PartialEq, Eq)]
pub struct RInstallation {
    pub version: String,
    /// The path of the binary.
    pub binary: String,
    /// It was installed by this program.
    pub managed: bool,
}

/// A number in decimal digits.
pub open spec fn is_number(s: Seq<char>) -> bool {
    s.len() > 0 && forall|i: int| 0 <= i < s.len() ==> '0' <= #[trigger] s[i] <= '9'
}

/// A version `X.Y` or `X.Y.Z`.
pub open spec fn is_r_version(v: Seq<char>) -> bool {
    let parts = strings::split(v, '.');
    &&& 2 <= parts.len() <= 3
    &&& forall|i: int| 0 <= i < parts.len() ==> is_number(#[trigger] parts[i])
}

/// Whether all characters are decimal digits, and there is one.
fn number(s: &[char]) -> (r: bool)
    ensures
        r == is_number(s@),
{
    if s.len() == 0 {
        return false;
    }
    let mut i: usize = 0;
    while i < s.len()
        invariant
            i <= s@.len(),
            forall|j: int| 0 <= j < i ==> '0' <= #[trigger] s@[j] <= '9',
        decreases s@.len() - i,
    {
        let c = s[i];
        if !('0' <= c && c <= '9') {
            assert(!('0' <= s@[i as int] <= '9'));
            return false;
        }
        i += 1;
    }
    true
}

/// Whether a text can be a version of R: `X.Y.Z`, or a partial `X.Y`.
pub fn is_plausible_r_version(v: &str) -> (r: bool)
    ensures
        r == is_r_version(v@),
{
    let cs = text::chars_of(v);
    let parts = text::split(cs.as_slice(), '.');
    let ghost all = strings::split(v@, '.');
    if parts.len() < 2 || parts.len() > 3 {
        return false;
    }
    let mut i: usize = 0;
    while i < parts.len()
        invariant
            i <= parts@.len(),
            all == strings::split(v@, '.'),
            all == text::views(parts@),
            forall|j: int| 0 <= j < i ==> is_number(#[trigger] all[j]),
        decreases parts@.len() - i,
    {
        assert(all[i as int] == parts@[i as int]@);
        if !number(parts[i]) {
            assert(!is_number(all[i as int]));
            return false;
        }
        i += 1;
    }
    true
}

/// `version` begins with the components of `partial` and has more of them.
pub open spec fn extends_version(partial: Seq<char>, version: Seq<char>) -> bool {
    strings::starts_with(version, partial + "."@)
}

/// Whether a partial version such as `4.5` means the version `4.5.2`. It does not
/// mean `4.51`.
pub fn version_matches_prefix(partial: &str, version: &str) -> (r: bool)
    ensures
        r == extends_version(partial@, version@),
{
    let mut prefix = partial.to_owned();
    prefix.append(".");
    let cs = text::chars_of(version);
    text::starts_with(cs.as_slice(), prefix.as_str())
}

/// The version breaks the constraint. A constraint or a version that cannot be read
/// is broken by nothing and breaks nothing.
pub open spec fn conflicts(version: Seq<char>, constraint: Seq<char>) -> bool {
    resolver::semver_accepts(constraint, version) == Some(false)
}

/// Whether a version of R breaks the constraint of a project.
pub fn pin_conflicts_with_constraint(version: &str, constraint: &str) -> (r: bool)
    ensures
        r == conflicts(version@, constraint@),
{
    match resolver::requirement_accepts(constraint, version) {
        Some(accepted) => !accepted,
        None => false,
    }
}

/// All characters are decimal digits, and there is one.
pub open spec fn all_digits(s: Seq<char>) -> bool {
    s.len() > 0 && forall|i: int| 0 <= i < s.len() ==> 48 <= (#[trigger] s[i]) as int <= 57
}

/// Numbers with points between them part into the numbers.
proof fn lemma_numbers(numbers: Seq<Seq<char>>)
    requires
        numbers.len() > 0,
        forall|i: int| 0 <= i < numbers.len() ==> all_digits(#[trigger] numbers[i]),
    ensures
        strings::split(strings::join(numbers, seq!['.']), '.') == numbers,
{
    assert forall|i: int| 0 <= i < numbers.len() implies !(#[trigger] numbers[i]).contains('.') by {
        assert(all_digits(numbers[i]));
    }
    strings::lemma_split_join(numbers, '.');
}

/// Two or three numbers with points between them are a version of R; one number is
/// none, nor are four or more.
pub proof fn law_numbers_make_a_version(numbers: Seq<Seq<char>>)
    requires
        numbers.len() > 0,
        forall|i: int| 0 <= i < numbers.len() ==> all_digits(#[trigger] numbers[i]),
    ensures
        is_r_version(strings::join(numbers, seq!['.'])) <==> numbers.len() == 2 || numbers.len()
            == 3,
{
    lemma_numbers(numbers);
    assert forall|i: int| 0 <= i < numbers.len() implies is_number(#[trigger] numbers[i]) by {
        assert(all_digits(numbers[i]));
    }
}

/// A version of R is made of digits and points, with a point in it, none at its ends
/// and no two side by side.
pub proof fn law_characters_of_a_version(v: Seq<char>)
    requires
        is_r_version(v),
    ensures
        forall|i: int| 0 <= i < v.len() ==> v[i] == '.' || 48 <= (#[trigger] v[i]) as int <= 57,
        v.contains('.'),
        v.len() >= 3,
        v[0] != '.',
        v.last() != '.',
        forall|i: int| 0 <= i < v.len() - 1 ==> !(#[trigger] v[i] == '.' && v[i + 1] == '.'),
{
    let parts = strings::split(v, '.');
    let dot = seq!['.'];
    strings::law_split_loses_nothing(v, '.');
    assert(is_number(parts[0]) && is_number(parts[1]));
    if parts.len() == 2 {
        assert(parts.drop_last() =~= seq![parts[0]]);
        assert(strings::join(parts.drop_last(), dot) =~= parts[0]);
        assert(v =~= parts[0] + dot + parts[1]);
    } else {
        assert(is_number(parts[2]));
        let two = parts.drop_last();
        assert(two =~= seq![parts[0], parts[1]]);
        assert(two.drop_last() =~= seq![parts[0]]);
        assert(strings::join(two.drop_last(), dot) =~= parts[0]);
        assert(strings::join(two, dot) =~= parts[0] + dot + parts[1]);
        assert(v =~= parts[0] + dot + parts[1] + dot + parts[2]);
    }
    assert(v[parts[0].len() as int] == '.');
}

/// A partial version means the versions that go on after it with a point, and no
/// others: not itself, and not one that goes on with another digit.
pub proof fn law_partial_version(partial: Seq<char>, rest: Seq<char>, version: Seq<char>)
    ensures
        extends_version(partial, partial + seq!['.'] + rest),
        extends_version(partial, version) ==> version == partial + seq!['.'] + version.skip(
            partial.len() as int + 1,
        ),
        !extends_version(partial, partial),
        rest.len() > 0 && rest[0] != '.' ==> !extends_version(partial, partial + rest),
{
    reveal_strlit(".");
    let p = partial + "."@;
    let n = partial.len() as int;
    let v = partial + seq!['.'] + rest;
    assert(v.take(n + 1) =~= p);
    if extends_version(partial, version) {
        assert(version.take(n + 1) == p);
        assert(version =~= version.take(n + 1) + version.skip(n + 1));
        assert(p =~= partial + seq!['.']);
    }
    if rest.len() > 0 && rest[0] != '.' && extends_version(partial, partial + rest) {
        assert((partial + rest).take(n + 1)[n] == p[n]);
    }
}

/// A version breaks a constraint only where both can be read and the constraint does
/// not accept the version.
pub proof fn law_what_cannot_be_read_breaks_nothing(version: Seq<char>, constraint: Seq<char>)
    ensures
        match resolver::semver_accepts(constraint, version) {
            Some(accepted) => conflicts(version, constraint) != accepted,
            None => !conflicts(version, constraint),
        },
{
}

} // verus!
