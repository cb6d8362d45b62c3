//! Versions and the requirements on them.

use vstd::prelude::*;

use crate::error;
use crate::error::UvrError;
use crate::strings;
use crate::text;

verus! {

/// A semantic version.
#[derive(Debug, PartialEq, Eq)]
pub struct Version {
    pub major: u64,
    pub minor: u64,
    pub patch: u64,
    pub pre: String,
    pub build: String,
}

/// What a [`Version`] holds.
pub struct VersionParts {
    pub major: u64,
    pub minor: u64,
    pub patch: u64,
    pub pre: Seq<char>,
    pub build: Seq<char>,
}

impl DeepView for Version {
    type V = VersionParts;

    open spec fn deep_view(&self) -> VersionParts {
        VersionParts {
            major: self.major,
            minor: self.minor,
            patch: self.patch,
            pre: self.pre@,
            build: self.build@,
        }
    }
}

impl Clone for Version {
    fn clone(&self) -> (r: Self)
        ensures
            r.deep_view() == self.deep_view(),
    {
        Version {
            major: self.major,
            minor: self.minor,
            patch: self.patch,
            pre: self.pre.clone(),
            build: self.build.clone(),
        }
    }
}

/// Three numbers with dots between them.
pub open spec fn triple(major: u64, minor: u64, patch: u64) -> Seq<char> {
    error::decimal_digits(major as nat) + "."@ + error::decimal_digits(minor as nat) + "."@
        + error::decimal_digits(patch as nat)
}

/// A version without a pre-release and without build metadata.
pub open spec fn release(major: u64, minor: u64, patch: u64) -> VersionParts {
    VersionParts { major, minor, patch, pre: seq![], build: seq![] }
}

/// A version in writing.
pub open spec fn version_text(v: VersionParts) -> Seq<char> {
    triple(v.major, v.minor, v.patch) + (if v.pre.len() == 0 {
        seq![]
    } else {
        "-"@ + v.pre
    }) + (if v.build.len() == 0 {
        seq![]
    } else {
        "+"@ + v.build
    })
}

/// Three numbers with dots between them.
fn triple_text(major: u64, minor: u64, patch: u64) -> (r: String)
    ensures
        r@ == triple(major, minor, patch),
{
    let mut m = error::digits_text(major);
    m.append(".");
    m.append(error::digits_text(minor).as_str());
    m.append(".");
    m.append(error::digits_text(patch).as_str());
    m
}

impl Version {
    /// A version without a pre-release and without build metadata.
    pub fn new(major: u64, minor: u64, patch: u64) -> (r: Self)
        ensures
            r.deep_view() == release(major, minor, patch),
    {
        let r = Version { major, minor, patch, pre: String::new(), build: String::new() };
        assert(r.pre@ =~= seq![]);
        assert(r.build@ =~= seq![]);
        r
    }

    /// The version in writing.
    pub fn text(&self) -> (r: String)
        ensures
            r@ == version_text(self.deep_view()),
    {
        let mut m = triple_text(self.major, self.minor, self.patch);
        if !self.pre.as_str().is_empty() {
            m.append("-");
            m.append(self.pre.as_str());
        }
        if !self.build.as_str().is_empty() {
            m.append("+");
            m.append(self.build.as_str());
        }
        assert(m@ =~= version_text(self.deep_view()));
        m
    }
}

/// The version that `semver::Version::parse` reads in a text, if it reads one.
pub uninterp spec fn semver_version(text: Seq<char>) -> Option<VersionParts>;

/// `semver::Version::parse`: a function of the text alone. Three numbers with dots
/// between them, without leading zeros, are the version of these numbers.
#[verifier::external_body]
fn read_version(text: &str) -> (r: Option<Version>)
    ensures
        r.deep_view() == semver_version(text@),
        forall|a: u64, b: u64, c: u64|
            text@ == #[trigger] triple(a, b, c) ==> r.deep_view() == Some(release(a, b, c)),
{
    let v = semver::Version::parse(text).ok()?;
    Some(
        Version {
            major: v.major,
            minor: v.minor,
            patch: v.patch,
            pre: v.pre.as_str().to_string(),
            build: v.build.as_str().to_string(),
        },
    )
}

/// What `semver::VersionReq::parse` makes of a text: the requirement in its
/// `Display` form, or the message that refuses it.
pub uninterp spec fn semver_requirement(text: Seq<char>) -> Result<Seq<char>, Seq<char>>;

/// `semver::VersionReq::parse`: a function of the text alone. The requirement and
/// the error are told by their `Display` forms.
#[verifier::external_body]
fn read_requirement(text: &str) -> (r: Result<String, String>)
    ensures
        match r {
            Ok(s) => semver_requirement(text@) == Ok::<Seq<char>, Seq<char>>(s@),
            Err(m) => semver_requirement(text@) == Err::<Seq<char>, Seq<char>>(m@),
        },
{
    match semver::VersionReq::parse(text) {
        Ok(r) => Ok(r.to_string()),
        Err(e) => Err(e.to_string()),
    }
}

/// Whether `semver::VersionReq::matches` holds of the requirement and the version
/// that two texts write. Nothing, where one of them writes none.
pub uninterp spec fn semver_accepts(req: Seq<char>, version: Seq<char>) -> Option<bool>;

/// `semver::VersionReq::matches`, on a requirement and a version that are given in
/// writing: a function of the two texts alone.
#[verifier::external_body]
pub(crate) fn requirement_accepts(req: &str, version: &str) -> (r: Option<bool>)
    ensures
        r == semver_accepts(req@, version@),
{
    let req = semver::VersionReq::parse(req).ok()?;
    let version = semver::Version::parse(version).ok()?;
    Some(req.matches(&version))
}

/// A requirement on a version.
#[derive(Debug, PartialEq, Eq)]
pub struct VersionReq {
    /// As it was written.
    pub text: String,
    /// As it is shown.
    pub shown: String,
}

/// What a [`VersionReq`] holds.
pub struct Requirement {
    pub text: Seq<char>,
    pub shown: Seq<char>,
}

impl DeepView for VersionReq {
    type V = Requirement;

    open spec fn deep_view(&self) -> Requirement {
        Requirement { text: self.text@, shown: self.shown@ }
    }
}

/// What reading a requirement comes to.
pub open spec fn is_requirement(c: Seq<char>, r: Result<VersionReq, UvrError>) -> bool {
    match semver_requirement(c) {
        Ok(shown) => r matches Ok(q) && q.deep_view() == (Requirement { text: c, shown }),
        Err(message) => r matches Err(UvrError::Semver(m)) && m@ == message,
    }
}

/// Reads a requirement on a version.
pub fn parse_version_req(c: &str) -> (r: Result<VersionReq, UvrError>)
    ensures
        is_requirement(c@, r),
{
    match read_requirement(c) {
        Ok(shown) => Ok(VersionReq { text: c.to_owned(), shown }),
        Err(m) => Err(UvrError::Semver(m)),
    }
}

/// A version meets a requirement.
pub open spec fn meets(version: VersionParts, req: Requirement) -> bool {
    semver_accepts(req.text, version_text(version)) == Some(true)
}

/// Whether a version meets a requirement.
pub fn version_matches_req(version: &Version, req: &VersionReq) -> (r: bool)
    ensures
        r == meets(version.deep_view(), req.deep_view()),
{
    match requirement_accepts(req.text.as_str(), version.text().as_str()) {
        Some(b) => b,
        None => false,
    }
}

/// The numbers among the pieces.
pub open spec fn numbers_in(pieces: Seq<Seq<char>>) -> Seq<u64>
    decreases pieces.len(),
{
    if pieces.len() == 0 {
        seq![]
    } else {
        let before = numbers_in(pieces.drop_last());
        match strings::parse_unsigned(pieces.last(), 10) {
            Some(n) => before.push(n),
            None => before,
        }
    }
}

/// The numbers of an R version, which dots and hyphens part.
pub open spec fn version_numbers(v: Seq<char>) -> Seq<u64> {
    numbers_in(strings::split(strings::replace(v, '-', "."@), '.'))
}

/// The number at a place, zero where there is none.
pub open spec fn number_at(numbers: Seq<u64>, i: int) -> u64 {
    if i < numbers.len() {
        numbers[i]
    } else {
        0
    }
}

/// The semantic version that an R version counts as: its first three numbers.
pub open spec fn package_version(v: Seq<char>) -> VersionParts {
    let n = version_numbers(v);
    release(number_at(n, 0), number_at(n, 1), number_at(n, 2))
}

/// The numbers of an R version.
fn read_numbers(v: &str) -> (r: Vec<u64>)
    ensures
        r@ == version_numbers(v@),
{
    let cs = text::chars_of(v);
    let dotted = text::replace(cs.as_slice(), '-', ".");
    let ds = text::chars_of(dotted.as_str());
    let pieces = text::split(ds.as_slice(), '.');
    let ghost all = text::views(pieces@);
    let mut out: Vec<u64> = Vec::new();
    let mut i: usize = 0;
    assert(all.take(0) =~= seq![]);
    while i < pieces.len()
        invariant
            i <= pieces@.len(),
            all == text::views(pieces@),
            out@ == numbers_in(all.take(i as int)),
        decreases pieces@.len() - i,
    {
        assert(all.take(i + 1).drop_last() =~= all.take(i as int));
        assert(all.take(i + 1).last() == pieces@[i as int]@);
        if let Some(n) = text::parse_unsigned(pieces[i], 10) {
            out.push(n);
        }
        i += 1;
    }
    assert(all.take(i as int) =~= all);
    out
}

/// An R version as a semantic version: its first three numbers, missing ones being
/// zero. `1.2-3` is `1.2.3`.
pub fn normalize_version(v: &str) -> (r: String)
    ensures
        r@ == version_text(package_version(v@)),
{
    let n = read_numbers(v);
    let major: u64 = if n.len() > 0 {
        n[0]
    } else {
        0
    };
    let minor: u64 = if n.len() > 1 {
        n[1]
    } else {
        0
    };
    let patch: u64 = if n.len() > 2 {
        n[2]
    } else {
        0
    };
    let m = triple_text(major, minor, patch);
    assert(m@ =~= version_text(package_version(v@)));
    m
}

/// The semantic version that an R version counts as.
pub fn parse_package_version(v: &str) -> (r: Version)
    ensures
        r.deep_view() == package_version(v@),
{
    let normalized = normalize_version(v);
    proof {
        let p = package_version(v@);
        assert(version_text(p) =~= triple(p.major, p.minor, p.patch));
    }
    match read_version(normalized.as_str()) {
        Some(version) => version,
        None => Version::new(0, 0, 0),
    }
}

/// The packages that come with R, and R itself.
pub open spec fn is_base(name: Seq<char>) -> bool {
    ||| name == "R"@
    ||| name == "base"@
    ||| name == "compiler"@
    ||| name == "datasets"@
    ||| name == "graphics"@
    ||| name == "grDevices"@
    ||| name == "grid"@
    ||| name == "methods"@
    ||| name == "parallel"@
    ||| name == "splines"@
    ||| name == "stats"@
    ||| name == "stats4"@
    ||| name == "tcltk"@
    ||| name == "tools"@
    ||| name == "utils"@
}

/// Whether a package comes with R, or is R itself.
pub fn is_base_package(name: &str) -> (r: bool)
    ensures
        r == is_base(name@),
{
    text::same_str(name, "R") || text::same_str(name, "base") || text::same_str(name, "compiler")
        || text::same_str(name, "datasets") || text::same_str(name, "graphics")
        || text::same_str(name, "grDevices") || text::same_str(name, "grid")
        || text::same_str(name, "methods") || text::same_str(name, "parallel")
        || text::same_str(name, "splines") || text::same_str(name, "stats")
        || text::same_str(name, "stats4") || text::same_str(name, "tcltk")
        || text::same_str(name, "tools") || text::same_str(name, "utils")
}

/// The numbers in pieces one after another are those of the ones and of the others.
proof fn lemma_numbers_in(a: Seq<Seq<char>>, b: Seq<Seq<char>>)
    ensures
        numbers_in(a + b) == numbers_in(a) + numbers_in(b),
    decreases b.len(),
{
    let both = a + b;
    if b.len() == 0 {
        assert(both =~= a);
        assert(numbers_in(a) + numbers_in(b) =~= numbers_in(a));
    } else {
        lemma_numbers_in(a, b.drop_last());
        assert(both.drop_last() =~= a + b.drop_last());
        assert(both.last() == b.last());
        assert(numbers_in(both) =~= numbers_in(a) + numbers_in(b));
    }
}

/// A dot or a hyphen parts the numbers of a version, and both alike.
pub proof fn law_numbers_are_read_apart(a: Seq<char>, b: Seq<char>)
    ensures
        version_numbers(a + seq!['.'] + b) == version_numbers(a) + version_numbers(b),
        version_numbers(a + seq!['-'] + b) == version_numbers(a) + version_numbers(b),
{
    reveal_strlit(".");
    let x = strings::replace(a, '-', "."@);
    let y = strings::replace(b, '-', "."@);
    let dot = seq!['.'];
    assert("."@ =~= dot);
    strings::law_replace_goes_on(a, dot, '-', "."@, '.');
    strings::law_replace_goes_on(a + dot, b, '-', "."@, '.');
    strings::law_replace_goes_on(a, seq!['-'], '-', "."@, '.');
    strings::law_replace_goes_on(a + seq!['-'], b, '-', "."@, '.');
    assert(strings::replace(a + dot + b, '-', "."@) == x + dot + y);
    assert(strings::replace(a + seq!['-'] + b, '-', "."@) == x + dot + y);
    strings::lemma_split_between(x, '.', y);
    lemma_numbers_in(strings::split(x, '.'), strings::split(y, '.'));
}

/// A number in decimal digits is read as it is. A piece that is no number is passed
/// over.
pub proof fn law_number_is_read(n: u64, piece: Seq<char>)
    ensures
        version_numbers(error::decimal_digits(n as nat)) == seq![n],
        !piece.contains('.') && !piece.contains('-') && strings::parse_unsigned(piece, 10) is None
            ==> version_numbers(piece).len() == 0,
{
    let d = error::decimal_digits(n as nat);
    error::law_decimal_digits_are_read_back(n);
    assert(!d.contains('-') && !d.contains('.')) by {
        if d.contains('-') || d.contains('.') {
            let i = choose|i: int| 0 <= i < d.len() && (d[i] == '-' || d[i] == '.');
            assert('0' <= d[i] <= '9');
        }
    }
    lemma_one_piece(d);
    assert(numbers_in(seq![d]) =~= seq![n]) by {
        reveal_with_fuel(numbers_in, 2);
        assert(seq![d].drop_last() =~= seq![]);
    }
    if !piece.contains('.') && !piece.contains('-') && strings::parse_unsigned(piece, 10) is None {
        lemma_one_piece(piece);
        reveal_with_fuel(numbers_in, 2);
        assert(seq![piece].drop_last() =~= seq![]);
    }
}

/// A text without dots and hyphens is one piece.
proof fn lemma_one_piece(s: Seq<char>)
    requires
        !s.contains('.'),
        !s.contains('-'),
    ensures
        strings::split(strings::replace(s, '-', "."@), '.') == seq![s],
{
    strings::lemma_replace_nothing(s, '-', "."@);
    assert forall|i: int| 0 <= i < s.len() implies s[i] != '.' by {
        assert(s.contains(s[i]));
    }
    strings::lemma_split_one(s, '.');
}

/// A version counts by its first three numbers, those that are missing being zero, and
/// by no others. It is a release.
pub proof fn law_three_numbers_count(v: Seq<char>, w: Seq<char>)
    ensures
        ({
            let p = package_version(v);
            let n = version_numbers(v);
            &&& p.major == (if n.len() > 0 {
                n[0]
            } else {
                0
            })
            &&& p.minor == (if n.len() > 1 {
                n[1]
            } else {
                0
            })
            &&& p.patch == (if n.len() > 2 {
                n[2]
            } else {
                0
            })
            &&& p.pre.len() == 0
            &&& p.build.len() == 0
        }),
        version_numbers(v).len() >= 3 ==> package_version(v + seq!['.'] + w) == package_version(v),
{
    law_numbers_are_read_apart(v, w);
}

/// Three numbers in writing are the version of these numbers, whether dots or hyphens
/// part them, and a release in writing reads back as the release.
pub proof fn law_written_version_is_read_back(a: u64, b: u64, c: u64)
    ensures
        version_text(release(a, b, c)) == triple(a, b, c),
        package_version(triple(a, b, c)) == release(a, b, c),
        package_version(
            error::decimal_digits(a as nat) + seq!['.'] + error::decimal_digits(b as nat) + seq![
                '-',
            ] + error::decimal_digits(c as nat),
        ) == release(a, b, c),
        package_version(
            error::decimal_digits(a as nat) + seq!['.'] + error::decimal_digits(b as nat),
        ) == release(a, b, 0),
        package_version(error::decimal_digits(a as nat)) == release(a, 0, 0),
{
    reveal_strlit(".");
    let x = error::decimal_digits(a as nat);
    let y = error::decimal_digits(b as nat);
    let z = error::decimal_digits(c as nat);
    let dot = seq!['.'];
    assert("."@ =~= dot);
    assert(version_text(release(a, b, c)) =~= triple(a, b, c));
    law_number_is_read(a, seq![]);
    law_number_is_read(b, seq![]);
    law_number_is_read(c, seq![]);
    law_numbers_are_read_apart(x, y);
    law_numbers_are_read_apart(x + dot + y, z);
    assert(version_numbers(x + dot + y) =~= seq![a, b]);
    assert(version_numbers(triple(a, b, c)) =~= seq![a, b, c]);
    assert(version_numbers(x + dot + y + seq!['-'] + z) =~= seq![a, b, c]);
}

/// A pre-release stands after a hyphen, and the build after a plus sign, at the end.
pub proof fn law_written_version_tells_its_parts(v: VersionParts)
    ensures
        strings::starts_with(version_text(v), triple(v.major, v.minor, v.patch)),
        v.pre.len() > 0 && v.build.len() == 0 ==> version_text(v) == triple(
            v.major,
            v.minor,
            v.patch,
        ) + (seq!['-'] + v.pre),
        v.pre.len() == 0 && v.build.len() > 0 ==> version_text(v) == triple(
            v.major,
            v.minor,
            v.patch,
        ) + (seq!['+'] + v.build),
        v.pre.len() > 0 && v.build.len() > 0 ==> version_text(v) == triple(
            v.major,
            v.minor,
            v.patch,
        ) + (seq!['-'] + v.pre) + (seq!['+'] + v.build),
{
    reveal_strlit("-");
    reveal_strlit("+");
    let t = triple(v.major, v.minor, v.patch);
    let w = version_text(v);
    assert("-"@ =~= seq!['-']);
    assert("+"@ =~= seq!['+']);
    assert(w.take(t.len() as int) =~= t);
    if v.build.len() == 0 {
        assert(w =~= t + (if v.pre.len() == 0 {
            seq![]
        } else {
            "-"@ + v.pre
        }));
    } else if v.pre.len() == 0 {
        assert(w =~= t + ("+"@ + v.build));
    }
}

/// A requirement keeps the text that it was read from. One that cannot be read is an
/// error that tells why.
pub proof fn law_requirement_keeps_its_text(c: Seq<char>, r: Result<VersionReq, UvrError>)
    requires
        is_requirement(c, r),
    ensures
        r is Ok <==> semver_requirement(c) is Ok,
        r matches Ok(q) ==> q.text@ == c && semver_requirement(c) == Ok::<Seq<char>, Seq<char>>(
            q.shown@,
        ),
        r matches Err(e) ==> (e matches UvrError::Semver(m) && semver_requirement(c) == Err::<
            Seq<char>,
            Seq<char>,
        >(m@)),
{
}

/// Whether a release meets a requirement is asked of the release in writing and of the
/// requirement as it was written. What cannot be read is not met.
pub proof fn law_requirement_is_asked_as_written(a: u64, b: u64, c: u64, req: Requirement)
    ensures
        match semver_accepts(req.text, triple(a, b, c)) {
            Some(accepted) => meets(release(a, b, c), req) == accepted,
            None => !meets(release(a, b, c), req),
        },
{
    law_written_version_is_read_back(a, b, c);
}

/// The names of the packages that come with R, and R itself.
pub open spec fn base_names() -> Seq<Seq<char>> {
    seq![
        "R"@,
        "base"@,
        "compiler"@,
        "datasets"@,
        "graphics"@,
        "grDevices"@,
        "grid"@,
        "methods"@,
        "parallel"@,
        "splines"@,
        "stats"@,
        "stats4"@,
        "tcltk"@,
        "tools"@,
        "utils"@,
    ]
}

/// Just these packages come with R.
pub proof fn law_base_packages(name: Seq<char>)
    ensures
        is_base(name) <==> base_names().contains(name),
{
    let b = base_names();
    assert(b[0] == "R"@ && b[1] == "base"@ && b[2] == "compiler"@ && b[3] == "datasets"@ && b[4]
        == "graphics"@ && b[5] == "grDevices"@ && b[6] == "grid"@ && b[7] == "methods"@ && b[8]
        == "parallel"@ && b[9] == "splines"@ && b[10] == "stats"@ && b[11] == "stats4"@ && b[12]
        == "tcltk"@ && b[13] == "tools"@ && b[14] == "utils"@);
}

} // verus!
