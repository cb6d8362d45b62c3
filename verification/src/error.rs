//! The errors of this crate, and how they are told.

use vstd::prelude::*;

use crate::strings;
use crate::text;

verus! {

/// What can go wrong.
#[derive(Debug, Clone, PartialEq, Eq)]
pub enum UvrError {
    ManifestNotFound,
    ManifestParse(String),
    LockfileParse(String),
    PackageNotFound(String),
    VersionConflict { package: String, required: String, conflicting: String },
    NoMatchingVersion { package: String, constraint: String },
    ChecksumMismatch { package: String, expected: String, actual: String },
    RNotFound,
    RVersionUnsatisfied { constraint: String, installed: String },
    /// What the client reported, then the causes beneath it, the nearest first.
    Network(Vec<String>),
    Io(String),
    TomlSer(String),
    TomlDe(String),
    Semver(String),
    UnsupportedPlatform(String),
    InstallFailed { package: String, code: i32 },
    CircularDependency(String),
    Other(String),
}

/// The decimal digits of `n`.
pub open spec fn decimal_digits(n: nat) -> Seq<char>
    decreases n,
{
    let last = ('0' as int + n % 10) as char;
    if n < 10 {
        seq![last]
    } else {
        decimal_digits(n / 10).push(last)
    }
}

/// `n` in decimal notation.
pub open spec fn decimal(n: int) -> Seq<char> {
    if n < 0 {
        seq!['-'] + decimal_digits((-n) as nat)
    } else {
        decimal_digits(n as nat)
    }
}

/// The digit `d` as a character.
fn digit_char(d: u64) -> (r: char)
    requires
        d < 10,
    ensures
        r == ('0' as int + d) as char,
{
    match d {
        0 => '0',
        1 => '1',
        2 => '2',
        3 => '3',
        4 => '4',
        5 => '5',
        6 => '6',
        7 => '7',
        8 => '8',
        _ => '9',
    }
}

/// The decimal digits of `n`.
pub fn digits_text(n: u64) -> (r: String)
    ensures
        r@ == decimal_digits(n as nat),
    decreases n,
{
    let mut out = if n < 10 {
        String::new()
    } else {
        digits_text(n / 10)
    };
    out.push(digit_char(n % 10));
    assert(out@ =~= decimal_digits(n as nat));
    out
}

/// `n` in decimal notation.
pub fn decimal_text(n: i32) -> (r: String)
    ensures
        r@ == decimal(n as int),
{
    if n < 0 {
        let mut out = String::new();
        out.push('-');
        let size: u64 = (-(n as i64)) as u64;
        let digits = digits_text(size);
        out.append(digits.as_str());
        assert(out@ =~= decimal(n as int));
        out
    } else {
        digits_text(n as u64)
    }
}

/// The first `n` of the causes, without those that restate one before them.
pub open spec fn told(causes: Seq<Seq<char>>, n: int) -> Seq<Seq<char>>
    decreases n,
{
    if n <= 0 {
        seq![]
    } else {
        let before = told(causes, n - 1);
        if is_told(before, causes[n - 1]) {
            before
        } else {
            before.push(causes[n - 1])
        }
    }
}

/// One of the parts holds `cause`.
pub open spec fn is_told(parts: Seq<Seq<char>>, cause: Seq<char>) -> bool {
    exists|i: int|
        0 <= i < parts.len() && strings::contains_text(#[trigger] parts[i], cause)
}

/// The causes of a network error in one line.
pub open spec fn network_text(causes: Seq<Seq<char>>) -> Seq<char> {
    strings::join(told(causes, causes.len() as int), ": "@)
}

/// The causes of a network error in one line, outermost first. A cause whose
/// text is already there is left out.
pub fn describe_network_error(causes: &Vec<String>) -> (r: String)
    ensures
        r@ == network_text(text::string_views(causes@)),
{
    let ghost all = text::string_views(causes@);
    let mut parts: Vec<String> = Vec::new();
    let mut i: usize = 0;
    assert(text::string_views(parts@) =~= told(all, 0));
    while i < causes.len()
        invariant
            i <= causes@.len(),
            all == text::string_views(causes@),
            text::string_views(parts@) == told(all, i as int),
        decreases causes@.len() - i,
    {
        let cause = text::chars_of(causes[i].as_str());
        let mut known = false;
        let mut j: usize = 0;
        while j < parts.len()
            invariant
                j <= parts@.len(),
                cause@ == all[i as int],
                text::string_views(parts@) == told(all, i as int),
                known == exists|k: int|
                    0 <= k < j && strings::contains_text(
                        #[trigger] text::string_views(parts@)[k],
                        cause@,
                    ),
            decreases parts@.len() - j,
        {
            let part = text::chars_of(parts[j].as_str());
            let here = text::contains_text(part.as_slice(), cause.as_slice());
            assert(text::string_views(parts@)[j as int] == part@);
            known = known || here;
            j += 1;
        }
        let ghost before = text::string_views(parts@);
        assert(known == is_told(before, all[i as int]));
        if !known {
            parts.push(causes[i].clone());
            assert(text::string_views(parts@) =~= before.push(all[i as int]));
        }
        i += 1;
    }
    text::join(parts.as_slice(), ": ")
}

/// The message that tells an error.
pub open spec fn message_of(e: UvrError) -> Seq<char> {
    match e {
        UvrError::ManifestNotFound =>
            "Project manifest not found (no uvr.toml in current directory or any parent)"@,
        UvrError::ManifestParse(s) => "Manifest parse error: "@ + s@,
        UvrError::LockfileParse(s) => "Lockfile parse error: "@ + s@,
        UvrError::PackageNotFound(s) => "Package not found: "@ + s@
            + ". If this package was recently archived from CRAN, try installing from the CRAN GitHub mirror: uvr add cran/"@
            + s@ + "@master"@,
        UvrError::VersionConflict { package, required, conflicting } =>
            "Version conflict for package '"@ + package@ + "': required "@ + required@ + ", but "@
                + conflicting@ + " is already selected"@,
        UvrError::NoMatchingVersion { package, constraint } => "No version of '"@ + package@
            + "' satisfies constraint '"@ + constraint@ + "'"@,
        UvrError::ChecksumMismatch { package, expected, actual } => "Checksum mismatch for "@
            + package@ + ": expected "@ + expected@ + ", got "@ + actual@,
        UvrError::RNotFound =>
            "R not found on PATH. Install R or use `uvr r install <version>`"@,
        UvrError::RVersionUnsatisfied { constraint, installed } => "R version constraint '"@
            + constraint@ + "' not satisfied by any installed R ("@ + installed@ + ")"@,
        UvrError::Network(causes) => "Network error: "@ + network_text(
            text::string_views(causes@),
        ),
        UvrError::Io(s) => "I/O error: "@ + s@,
        UvrError::TomlSer(s) => "TOML serialization error: "@ + s@,
        UvrError::TomlDe(s) => "TOML deserialization error: "@ + s@,
        UvrError::Semver(s) => "Semver parse error: "@ + s@,
        UvrError::UnsupportedPlatform(s) => "Unsupported platform: "@ + s@,
        UvrError::InstallFailed { package, code } => "R CMD INSTALL failed for "@ + package@
            + " (exit code "@ + decimal(code as int) + ")"@,
        UvrError::CircularDependency(s) => "Circular dependency detected involving: "@ + s@,
        UvrError::Other(s) => s@,
    }
}

impl UvrError {
    /// The message that tells this error.
    pub fn message(&self) -> (r: String)
        ensures
            r@ == message_of(*self),
    {
        match self {
            UvrError::ManifestNotFound =>
                "Project manifest not found (no uvr.toml in current directory or any parent)".to_owned(),
            UvrError::ManifestParse(s) => {
                let mut m = "Manifest parse error: ".to_owned();
                m.append(s.as_str());
                m
            },
            UvrError::LockfileParse(s) => {
                let mut m = "Lockfile parse error: ".to_owned();
                m.append(s.as_str());
                m
            },
            UvrError::PackageNotFound(s) => {
                let mut m = "Package not found: ".to_owned();
                m.append(s.as_str());
                m.append(
                    ". If this package was recently archived from CRAN, try installing from the CRAN GitHub mirror: uvr add cran/",
                );
                m.append(s.as_str());
                m.append("@master");
                m
            },
            UvrError::VersionConflict { package, required, conflicting } => {
                let mut m = "Version conflict for package '".to_owned();
                m.append(package.as_str());
                m.append("': required ");
                m.append(required.as_str());
                m.append(", but ");
                m.append(conflicting.as_str());
                m.append(" is already selected");
                m
            },
            UvrError::NoMatchingVersion { package, constraint } => {
                let mut m = "No version of '".to_owned();
                m.append(package.as_str());
                m.append("' satisfies constraint '");
                m.append(constraint.as_str());
                m.append("'");
                m
            },
            UvrError::ChecksumMismatch { package, expected, actual } => {
                let mut m = "Checksum mismatch for ".to_owned();
                m.append(package.as_str());
                m.append(": expected ");
                m.append(expected.as_str());
                m.append(", got ");
                m.append(actual.as_str());
                m
            },
            UvrError::RNotFound =>
                "R not found on PATH. Install R or use `uvr r install <version>`".to_owned(),
            UvrError::RVersionUnsatisfied { constraint, installed } => {
                let mut m = "R version constraint '".to_owned();
                m.append(constraint.as_str());
                m.append("' not satisfied by any installed R (");
                m.append(installed.as_str());
                m.append(")");
                m
            },
            UvrError::Network(causes) => {
                let mut m = "Network error: ".to_owned();
                let d = describe_network_error(causes);
                m.append(d.as_str());
                m
            },
            UvrError::Io(s) => {
                let mut m = "I/O error: ".to_owned();
                m.append(s.as_str());
                m
            },
            UvrError::TomlSer(s) => {
                let mut m = "TOML serialization error: ".to_owned();
                m.append(s.as_str());
                m
            },
            UvrError::TomlDe(s) => {
                let mut m = "TOML deserialization error: ".to_owned();
                m.append(s.as_str());
                m
            },
            UvrError::Semver(s) => {
                let mut m = "Semver parse error: ".to_owned();
                m.append(s.as_str());
                m
            },
            UvrError::UnsupportedPlatform(s) => {
                let mut m = "Unsupported platform: ".to_owned();
                m.append(s.as_str());
                m
            },
            UvrError::InstallFailed { package, code } => {
                let mut m = "R CMD INSTALL failed for ".to_owned();
                m.append(package.as_str());
                m.append(" (exit code ");
                let c = decimal_text(*code);
                m.append(c.as_str());
                m.append(")");
                m
            },
            UvrError::CircularDependency(s) => {
                let mut m = "Circular dependency detected involving: ".to_owned();
                m.append(s.as_str());
                m
            },
            UvrError::Other(s) => s.clone(),
        }
    }
}

/// A message in small letters that speaks of a certificate or of TLS trust.
pub open spec fn speaks_of_trust(lower: Seq<char>) -> bool {
    ||| strings::contains_text(lower, "certificate"@)
    ||| strings::contains_text(lower, "unknownissuer"@)
    ||| strings::contains_text(lower, "cert verify"@)
    ||| strings::contains_text(lower, "tls handshake"@)
}

/// Whether a message in small letters speaks of a certificate or of TLS trust.
pub fn names_certificate_failure(lower: &str) -> (r: bool)
    ensures
        r == speaks_of_trust(lower@),
{
    let l = text::chars_of(lower);
    let a = text::chars_of("certificate");
    let b = text::chars_of("unknownissuer");
    let c = text::chars_of("cert verify");
    let d = text::chars_of("tls handshake");
    text::contains_text(l.as_slice(), a.as_slice()) || text::contains_text(
        l.as_slice(),
        b.as_slice(),
    ) || text::contains_text(l.as_slice(), c.as_slice()) || text::contains_text(
        l.as_slice(),
        d.as_slice(),
    )
}

/// Whether an error message describes a certificate or TLS trust failure rather
/// than an ordinary connectivity problem. Capital letters count as small ones.
pub fn looks_like_certificate_failure(message: &str) -> (r: bool)
    ensures
        r == speaks_of_trust(text::lowered(message@)),
{
    let lower = message.to_lowercase();
    names_certificate_failure(lower.as_str())
}

/// No cause of a network error is lost: the line that describes the error holds
/// the text of each of them.
pub proof fn law_every_cause_is_told(causes: Seq<Seq<char>>, i: int)
    requires
        0 <= i < causes.len(),
    ensures
        strings::contains_text(network_text(causes), causes[i]),
{
    let n = causes.len() as int;
    lemma_told_grows(causes, i + 1, n);
    let at = told(causes, i + 1);
    let all = told(causes, n);
    let before = told(causes, i);
    let k = if is_told(before, causes[i]) {
        choose|k: int|
            0 <= k < before.len() && strings::contains_text(#[trigger] before[k], causes[i])
    } else {
        before.len() as int
    };
    if is_told(before, causes[i]) {
        assert(strings::contains_text(at[k], causes[i]));
    } else {
        assert(at[k] =~= causes[i]);
        strings::lemma_contains_itself(causes[i]);
    }
    assert(all[k] == at[k]);
    strings::lemma_join_contains(all, ": "@, k);
    strings::lemma_contains_transitive(network_text(causes), all[k], causes[i]);
}

/// What is told stays told.
proof fn lemma_told_grows(causes: Seq<Seq<char>>, m: int, n: int)
    requires
        0 <= m <= n <= causes.len(),
    ensures
        told(causes, m).len() <= told(causes, n).len(),
        forall|k: int| 0 <= k < told(causes, m).len() ==> told(causes, m)[k] == told(causes, n)[k],
    decreases n,
{
    if m < n {
        lemma_told_grows(causes, m, n - 1);
    }
}

proof fn lemma_decimal_digits(n: nat)
    ensures
        decimal_digits(n).len() > 0,
        forall|i: int|
            0 <= i < decimal_digits(n).len() ==> '0' <= #[trigger] decimal_digits(n)[i] <= '9',
        strings::number(decimal_digits(n), 10) == n,
    decreases n,
{
    let d = decimal_digits(n);
    let last = ('0' as int + n % 10) as char;
    assert('0' <= last <= '9');
    if n < 10 {
        assert(d =~= seq![last]);
        assert(d.drop_last() =~= seq![]);
        reveal_with_fuel(strings::number, 2);
    } else {
        lemma_decimal_digits(n / 10);
        assert(d.drop_last() =~= decimal_digits(n / 10));
        assert forall|i: int| 0 <= i < d.len() implies '0' <= #[trigger] d[i] <= '9' by {
            if i < d.len() - 1 {
                assert(d[i] == decimal_digits(n / 10)[i]);
            }
        }
        assert(n == 10 * (n / 10) + n % 10);
    }
}

/// A number that is written in decimal digits is read back as it was.
pub proof fn law_decimal_digits_are_read_back(n: u64)
    ensures
        decimal_digits(n as nat).len() > 0,
        forall|i: int|
            0 <= i < decimal_digits(n as nat).len() ==> '0' <= #[trigger] decimal_digits(
                n as nat,
            )[i] <= '9',
        strings::parse_unsigned(decimal_digits(n as nat), 10) == Some(n),
{
    lemma_decimal_digits(n as nat);
    let d = decimal_digits(n as nat);
    assert('0' <= d[0] <= '9');
    assert(strings::without_plus(d) == d);
    assert forall|i: int| 0 <= i < d.len() implies strings::is_digit(#[trigger] d[i], 10) by {
        assert('0' <= d[i] <= '9');
    }
}

/// The message of an error holds all that the error tells.
pub proof fn law_message_tells_all(e: UvrError)
    ensures
        match e {
            UvrError::ManifestParse(s) | UvrError::LockfileParse(s) | UvrError::Io(s)
            | UvrError::TomlSer(s) | UvrError::TomlDe(s) | UvrError::Semver(s)
            | UvrError::UnsupportedPlatform(s) | UvrError::CircularDependency(s) => {
                strings::ends_with(message_of(e), s@) && message_of(e).len() > s@.len()
            },
            UvrError::Other(s) => message_of(e) == s@,
            UvrError::PackageNotFound(s) => strings::contains_text(
                message_of(e),
                "uvr add cran/"@ + s@ + "@master"@,
            ),
            UvrError::VersionConflict { package, required, conflicting } => {
                &&& strings::contains_text(message_of(e), "'"@ + package@ + "'"@)
                &&& strings::contains_text(message_of(e), "required "@ + required@)
                &&& strings::contains_text(message_of(e), "but "@ + conflicting@)
            },
            UvrError::NoMatchingVersion { package, constraint } => {
                &&& strings::contains_text(message_of(e), "'"@ + package@ + "'"@)
                &&& strings::contains_text(message_of(e), "constraint '"@ + constraint@ + "'"@)
            },
            UvrError::ChecksumMismatch { package, expected, actual } => {
                &&& strings::contains_text(message_of(e), "for "@ + package@)
                &&& strings::contains_text(message_of(e), "expected "@ + expected@)
                &&& strings::contains_text(message_of(e), "got "@ + actual@)
            },
            UvrError::RVersionUnsatisfied { constraint, installed } => {
                &&& strings::contains_text(message_of(e), "constraint '"@ + constraint@ + "'"@)
                &&& strings::contains_text(message_of(e), "("@ + installed@ + ")"@)
            },
            UvrError::InstallFailed { package, code } => {
                &&& strings::contains_text(message_of(e), "for "@ + package@)
                &&& strings::contains_text(
                    message_of(e),
                    "exit code "@ + decimal(code as int) + ")"@,
                )
            },
            UvrError::Network(causes) => strings::ends_with(
                message_of(e),
                network_text(text::string_views(causes@)),
            ),
            UvrError::ManifestNotFound | UvrError::RNotFound => true,
        },
{
    let m = message_of(e);
    match e {
        UvrError::ManifestParse(s) => {
            reveal_strlit("Manifest parse error: ");
            assert(m.skip(m.len() - s@.len()) =~= s@);
        },
        UvrError::LockfileParse(s) => {
            reveal_strlit("Lockfile parse error: ");
            assert(m.skip(m.len() - s@.len()) =~= s@);
        },
        UvrError::Io(s) => {
            reveal_strlit("I/O error: ");
            assert(m.skip(m.len() - s@.len()) =~= s@);
        },
        UvrError::TomlSer(s) => {
            reveal_strlit("TOML serialization error: ");
            assert(m.skip(m.len() - s@.len()) =~= s@);
        },
        UvrError::TomlDe(s) => {
            reveal_strlit("TOML deserialization error: ");
            assert(m.skip(m.len() - s@.len()) =~= s@);
        },
        UvrError::Semver(s) => {
            reveal_strlit("Semver parse error: ");
            assert(m.skip(m.len() - s@.len()) =~= s@);
        },
        UvrError::UnsupportedPlatform(s) => {
            reveal_strlit("Unsupported platform: ");
            assert(m.skip(m.len() - s@.len()) =~= s@);
        },
        UvrError::CircularDependency(s) => {
            reveal_strlit("Circular dependency detected involving: ");
            assert(m.skip(m.len() - s@.len()) =~= s@);
        },
        UvrError::PackageNotFound(s) => {
            let long =
                ". If this package was recently archived from CRAN, try installing from the CRAN GitHub mirror: uvr add cran/"@;
            let cut =
                ". If this package was recently archived from CRAN, try installing from the CRAN GitHub mirror: "@;
            reveal_strlit(
                ". If this package was recently archived from CRAN, try installing from the CRAN GitHub mirror: uvr add cran/",
            );
            reveal_strlit(
                ". If this package was recently archived from CRAN, try installing from the CRAN GitHub mirror: ",
            );
            reveal_strlit("uvr add cran/");
            assert(long =~= cut + "uvr add cran/"@);
            let front = "Package not found: "@ + s@ + cut;
            let told = "uvr add cran/"@ + s@ + "@master"@;
            assert(m =~= front + told + Seq::<char>::empty());
            strings::lemma_contains_middle(front, told, seq![]);
        },
        UvrError::VersionConflict { package, required, conflicting } => {
            reveal_strlit("Version conflict for package '");
            reveal_strlit("Version conflict for package ");
            reveal_strlit("'");
            reveal_strlit("': required ");
            reveal_strlit(": ");
            reveal_strlit("required ");
            reveal_strlit(", but ");
            reveal_strlit(", ");
            reveal_strlit("but ");
            let a = "Version conflict for package "@;
            let end = " is already selected"@;
            assert("Version conflict for package '"@ =~= a + "'"@);
            assert("': required "@ =~= "'"@ + (": "@ + "required "@));
            assert(", but "@ =~= ", "@ + "but "@);
            let p = "'"@ + package@ + "'"@;
            let q = "required "@ + required@;
            let r = "but "@ + conflicting@;
            assert(m =~= a + p + (": "@ + q + ", "@ + r + end));
            strings::lemma_contains_middle(a, p, ": "@ + q + ", "@ + r + end);
            assert(m =~= a + p + ": "@ + q + (", "@ + r + end));
            strings::lemma_contains_middle(a + p + ": "@, q, ", "@ + r + end);
            assert(m =~= a + p + ": "@ + q + ", "@ + r + end);
            strings::lemma_contains_middle(a + p + ": "@ + q + ", "@, r, end);
        },
        UvrError::NoMatchingVersion { package, constraint } => {
            reveal_strlit("No version of '");
            reveal_strlit("No version of ");
            reveal_strlit("' satisfies constraint '");
            reveal_strlit("'");
            reveal_strlit(" satisfies ");
            reveal_strlit("constraint '");
            assert("No version of '"@ =~= "No version of "@ + "'"@);
            assert("' satisfies constraint '"@ =~= "'"@ + (" satisfies "@ + "constraint '"@));
            let p = "'"@ + package@ + "'"@;
            let q = "constraint '"@ + constraint@ + "'"@;
            assert(m =~= "No version of "@ + p + (" satisfies "@ + q));
            strings::lemma_contains_middle("No version of "@, p, " satisfies "@ + q);
            assert(m =~= "No version of "@ + p + " satisfies "@ + q + Seq::<char>::empty());
            strings::lemma_contains_middle("No version of "@ + p + " satisfies "@, q, seq![]);
        },
        UvrError::ChecksumMismatch { package, expected, actual } => {
            reveal_strlit("Checksum mismatch for ");
            reveal_strlit("Checksum mismatch ");
            reveal_strlit("for ");
            reveal_strlit(": expected ");
            reveal_strlit(": ");
            reveal_strlit("expected ");
            reveal_strlit(", got ");
            reveal_strlit(", ");
            reveal_strlit("got ");
            let a = "Checksum mismatch "@;
            assert("Checksum mismatch for "@ =~= a + "for "@);
            assert(": expected "@ =~= ": "@ + "expected "@);
            assert(", got "@ =~= ", "@ + "got "@);
            let p = "for "@ + package@;
            let q = "expected "@ + expected@;
            let r = "got "@ + actual@;
            assert(m =~= a + p + (": "@ + q + ", "@ + r));
            strings::lemma_contains_middle(a, p, ": "@ + q + ", "@ + r);
            assert(m =~= a + p + ": "@ + q + (", "@ + r));
            strings::lemma_contains_middle(a + p + ": "@, q, ", "@ + r);
            assert(m =~= a + p + ": "@ + q + ", "@ + r + Seq::<char>::empty());
            strings::lemma_contains_middle(a + p + ": "@ + q + ", "@, r, seq![]);
        },
        UvrError::RVersionUnsatisfied { constraint, installed } => {
            reveal_strlit("R version constraint '");
            reveal_strlit("R version ");
            reveal_strlit("constraint '");
            reveal_strlit("' not satisfied by any installed R (");
            reveal_strlit("'");
            reveal_strlit(" not satisfied by any installed R ");
            reveal_strlit("(");
            let mid = " not satisfied by any installed R "@;
            assert("R version constraint '"@ =~= "R version "@ + "constraint '"@);
            assert("' not satisfied by any installed R ("@ =~= "'"@ + (mid + "("@));
            let p = "constraint '"@ + constraint@ + "'"@;
            let q = "("@ + installed@ + ")"@;
            assert(m =~= "R version "@ + p + (mid + q));
            strings::lemma_contains_middle("R version "@, p, mid + q);
            assert(m =~= "R version "@ + p + mid + q + Seq::<char>::empty());
            strings::lemma_contains_middle("R version "@ + p + mid, q, seq![]);
        },
        UvrError::InstallFailed { package, code } => {
            reveal_strlit("R CMD INSTALL failed for ");
            reveal_strlit("R CMD INSTALL failed ");
            reveal_strlit("for ");
            reveal_strlit(" (exit code ");
            reveal_strlit(" (");
            reveal_strlit("exit code ");
            let a = "R CMD INSTALL failed "@;
            assert("R CMD INSTALL failed for "@ =~= a + "for "@);
            assert(" (exit code "@ =~= " ("@ + "exit code "@);
            let p = "for "@ + package@;
            let q = "exit code "@ + decimal(code as int) + ")"@;
            assert(m =~= a + p + (" ("@ + q));
            strings::lemma_contains_middle(a, p, " ("@ + q);
            assert(m =~= a + p + " ("@ + q + Seq::<char>::empty());
            strings::lemma_contains_middle(a + p + " ("@, q, seq![]);
        },
        UvrError::Network(causes) => {
            let t = network_text(text::string_views(causes@));
            assert(m.skip(m.len() - t.len()) =~= t);
        },
        _ => {},
    }
}

/// One of the causes holds `c`.
pub open spec fn holds_text(causes: Seq<Seq<char>>, c: Seq<char>) -> bool {
    exists|i: int| 0 <= i < causes.len() && strings::contains_text(#[trigger] causes[i], c)
}

/// What is told of the causes is made of the causes.
proof fn lemma_told_are_causes(causes: Seq<Seq<char>>, n: int, k: int)
    requires
        0 <= n <= causes.len(),
        0 <= k < told(causes, n).len(),
    ensures
        exists|i: int| 0 <= i < n && #[trigger] causes[i] == told(causes, n)[k],
    decreases n,
{
    let before = told(causes, n - 1);
    if k < before.len() {
        lemma_told_are_causes(causes, n - 1, k);
    } else {
        assert(causes[n - 1] == told(causes, n)[k]);
    }
}

/// What is told does not depend on the causes after it.
proof fn lemma_told_of_front(causes: Seq<Seq<char>>, c: Seq<char>, n: int)
    requires
        0 <= n <= causes.len(),
    ensures
        told(causes.push(c), n) == told(causes, n),
    decreases n,
{
    if n > 0 {
        lemma_told_of_front(causes, c, n - 1);
        assert(causes.push(c)[n - 1] == causes[n - 1]);
    }
}

/// One more cause is told after the others, unless one of them holds its text: then it
/// is told already.
pub proof fn law_cause_is_told_once(causes: Seq<Seq<char>>, c: Seq<char>)
    ensures
        holds_text(causes, c) ==> network_text(causes.push(c)) == network_text(causes),
        !holds_text(causes, c) && causes.len() > 0 ==> network_text(causes.push(c))
            == network_text(causes) + ": "@ + c,
        network_text(seq![c]) == c,
{
    let n = causes.len() as int;
    let all = causes.push(c);
    let parts = told(causes, n);
    lemma_told_of_front(causes, c, n);
    assert(all[n] == c);
    if holds_text(causes, c) {
        let i = choose|i: int|
            0 <= i < causes.len() && strings::contains_text(#[trigger] causes[i], c);
        let k = lemma_cause_is_in_a_part(causes, i);
        strings::lemma_contains_transitive(parts[k], causes[i], c);
        assert(is_told(parts, c));
    } else {
        assert(!is_told(parts, c)) by {
            if is_told(parts, c) {
                let k = choose|k: int|
                    0 <= k < parts.len() && strings::contains_text(#[trigger] parts[k], c);
                lemma_told_are_causes(causes, n, k);
                let i = choose|i: int| 0 <= i < n && #[trigger] causes[i] == parts[k];
                assert(strings::contains_text(causes[i], c));
            }
        }
        if n > 0 {
            let k = lemma_cause_is_in_a_part(causes, 0);
            assert(parts.push(c).drop_last() =~= parts);
        }
    }
    let one = seq![c];
    reveal_with_fuel(told, 2);
    assert(one[0] == c);
    assert(told(one, 1) =~= seq![c]);
}

/// A cause is in a part of what is told.
proof fn lemma_cause_is_in_a_part(causes: Seq<Seq<char>>, i: int) -> (k: int)
    requires
        0 <= i < causes.len(),
    ensures
        0 <= k < told(causes, causes.len() as int).len(),
        strings::contains_text(told(causes, causes.len() as int)[k], causes[i]),
{
    let n = causes.len() as int;
    lemma_told_grows(causes, i + 1, n);
    let at = told(causes, i + 1);
    let before = told(causes, i);
    let k = if is_told(before, causes[i]) {
        choose|k: int|
            0 <= k < before.len() && strings::contains_text(#[trigger] before[k], causes[i])
    } else {
        before.len() as int
    };
    if !is_told(before, causes[i]) {
        assert(at[k] =~= causes[i]);
        strings::lemma_contains_itself(causes[i]);
    }
    assert(told(causes, n)[k] == at[k]);
    k
}

/// A message speaks of trust where one of four phrases stands anywhere in it, and else
/// it does not.
pub proof fn law_phrases_of_trust(a: Seq<char>, b: Seq<char>, s: Seq<char>)
    ensures
        speaks_of_trust(a + "certificate"@ + b),
        speaks_of_trust(a + "unknownissuer"@ + b),
        speaks_of_trust(a + "cert verify"@ + b),
        speaks_of_trust(a + "tls handshake"@ + b),
        speaks_of_trust(s) ==> exists|phrase: Seq<char>, i: int|
            #![trigger strings::occurs_at(s, phrase, i)]
            strings::occurs_at(s, phrase, i) && seq![
                "certificate"@,
                "unknownissuer"@,
                "cert verify"@,
                "tls handshake"@,
            ].contains(phrase),
{
    strings::lemma_contains_middle(a, "certificate"@, b);
    strings::lemma_contains_middle(a, "unknownissuer"@, b);
    strings::lemma_contains_middle(a, "cert verify"@, b);
    strings::lemma_contains_middle(a, "tls handshake"@, b);
    let phrases = seq!["certificate"@, "unknownissuer"@, "cert verify"@, "tls handshake"@];
    assert(phrases[0] == "certificate"@ && phrases[1] == "unknownissuer"@ && phrases[2]
        == "cert verify"@ && phrases[3] == "tls handshake"@);
    if speaks_of_trust(s) {
        let k = if strings::contains_text(s, phrases[0]) {
            0int
        } else if strings::contains_text(s, phrases[1]) {
            1
        } else if strings::contains_text(s, phrases[2]) {
            2
        } else {
            3
        };
        let i = choose|i: int| strings::occurs_at(s, phrases[k], i);
        assert(strings::occurs_at(s, phrases[k], i));
        assert(phrases.contains(phrases[k]));
    }
}

/// The message of an error begins with what failed. Two of them tell what to do: there is
/// no manifest in any directory above, and there is no R.
pub proof fn law_message_says_what_failed(e: UvrError)
    ensures
        match e {
            UvrError::ManifestParse(_) => strings::starts_with(message_of(e), "Manifest parse error: "@),
            UvrError::LockfileParse(_) => strings::starts_with(message_of(e), "Lockfile parse error: "@),
            UvrError::PackageNotFound(_) => strings::starts_with(message_of(e), "Package not found: "@),
            UvrError::VersionConflict { .. } => strings::starts_with(message_of(e), "Version conflict for package '"@),
            UvrError::NoMatchingVersion { .. } => strings::starts_with(message_of(e), "No version of '"@),
            UvrError::ChecksumMismatch { .. } => strings::starts_with(message_of(e), "Checksum mismatch for "@),
            UvrError::RVersionUnsatisfied { .. } => strings::starts_with(message_of(e), "R version constraint '"@),
            UvrError::Network(_) => strings::starts_with(message_of(e), "Network error: "@),
            UvrError::Io(_) => strings::starts_with(message_of(e), "I/O error: "@),
            UvrError::TomlSer(_) => strings::starts_with(message_of(e), "TOML serialization error: "@),
            UvrError::TomlDe(_) => strings::starts_with(message_of(e), "TOML deserialization error: "@),
            UvrError::Semver(_) => strings::starts_with(message_of(e), "Semver parse error: "@),
            UvrError::UnsupportedPlatform(_) => strings::starts_with(message_of(e), "Unsupported platform: "@),
            UvrError::InstallFailed { .. } => strings::starts_with(message_of(e), "R CMD INSTALL failed for "@),
            UvrError::CircularDependency(_) => strings::starts_with(message_of(e), "Circular dependency detected involving: "@),
            UvrError::ManifestNotFound => strings::contains_text(message_of(e), "uvr.toml"@),
            UvrError::RNotFound => strings::contains_text(
                message_of(e),
                "uvr r install <version>"@,
            ),
            UvrError::Other(s) => true,
        },
{
    let m = message_of(e);
    match e {
        UvrError::ManifestParse(_) => {
            assert(m.take("Manifest parse error: "@.len() as int) =~= "Manifest parse error: "@);
        },
        UvrError::LockfileParse(_) => {
            assert(m.take("Lockfile parse error: "@.len() as int) =~= "Lockfile parse error: "@);
        },
        UvrError::PackageNotFound(_) => {
            assert(m.take("Package not found: "@.len() as int) =~= "Package not found: "@);
        },
        UvrError::VersionConflict { .. } => {
            assert(m.take("Version conflict for package '"@.len() as int) =~= "Version conflict for package '"@);
        },
        UvrError::NoMatchingVersion { .. } => {
            assert(m.take("No version of '"@.len() as int) =~= "No version of '"@);
        },
        UvrError::ChecksumMismatch { .. } => {
            assert(m.take("Checksum mismatch for "@.len() as int) =~= "Checksum mismatch for "@);
        },
        UvrError::RVersionUnsatisfied { .. } => {
            assert(m.take("R version constraint '"@.len() as int) =~= "R version constraint '"@);
        },
        UvrError::Network(_) => {
            assert(m.take("Network error: "@.len() as int) =~= "Network error: "@);
        },
        UvrError::Io(_) => {
            assert(m.take("I/O error: "@.len() as int) =~= "I/O error: "@);
        },
        UvrError::TomlSer(_) => {
            assert(m.take("TOML serialization error: "@.len() as int) =~= "TOML serialization error: "@);
        },
        UvrError::TomlDe(_) => {
            assert(m.take("TOML deserialization error: "@.len() as int) =~= "TOML deserialization error: "@);
        },
        UvrError::Semver(_) => {
            assert(m.take("Semver parse error: "@.len() as int) =~= "Semver parse error: "@);
        },
        UvrError::UnsupportedPlatform(_) => {
            assert(m.take("Unsupported platform: "@.len() as int) =~= "Unsupported platform: "@);
        },
        UvrError::InstallFailed { .. } => {
            assert(m.take("R CMD INSTALL failed for "@.len() as int) =~= "R CMD INSTALL failed for "@);
        },
        UvrError::CircularDependency(_) => {
            assert(m.take("Circular dependency detected involving: "@.len() as int) =~= "Circular dependency detected involving: "@);
        },
        UvrError::ManifestNotFound => {
            reveal_strlit(
                "Project manifest not found (no uvr.toml in current directory or any parent)",
            );
            reveal_strlit("uvr.toml");
            assert(m.subrange(31, 39) =~= "uvr.toml"@);
            assert(strings::occurs_at(m, "uvr.toml"@, 31));
        },
        UvrError::RNotFound => {
            reveal_strlit("R not found on PATH. Install R or use `uvr r install <version>`");
            reveal_strlit("uvr r install <version>");
            assert(m.subrange(39, 62) =~= "uvr r install <version>"@);
            assert(strings::occurs_at(m, "uvr r install <version>"@, 39));
        },
        UvrError::Other(s) => {},
    }
}

} // verus!
