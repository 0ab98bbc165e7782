//! Updates: which release is fetched, how it is checked, and where it goes.

use crate::text;
use crate::text::{
    begins_with, lines_of, lowered, str_view, text_view, texts, trim_front, trimmed, words_of,
    CharClass,
};
use sha2::{Digest, Sha256};
use std::path::PathBuf;
use vstd::prelude::*;

verus! {

/// A binary that was installed.
#[derive(Debug, Clone)]
pub struct InstalledBinary {
    pub install_path: PathBuf,
    pub requested_version: String,
    pub reported_version: Option<String>,
}

/// Why an update is given up.
#[derive(Debug)]
pub enum UpdateError {
    UnsupportedOs(String),
    UnsupportedArchitecture(String),
    UnpublishedLinuxBuild,
    MissingChecksum(String),
    ChecksumMismatch { expected: String, actual: String },
    MissingBinary,
    NoHome,
}

impl UpdateError {
    /// The error in words.
    pub open spec fn message(self) -> Seq<char> {
        match self {
            UpdateError::UnsupportedOs(os) => "unsupported OS: "@ + os@,
            UpdateError::UnsupportedArchitecture(arch) => "unsupported architecture: "@ + arch@,
            UpdateError::UnpublishedLinuxBuild =>
                "only x86_64 Linux builds are published right now"@,
            UpdateError::MissingChecksum(name) =>
                "checksum file did not contain an entry for "@ + name@,
            UpdateError::ChecksumMismatch { expected, actual } => "checksum mismatch: expected "@
                + expected@ + ", got "@ + actual@,
            UpdateError::MissingBinary => "release archive did not contain `codex-pool`"@,
            UpdateError::NoHome => "failed to resolve HOME for install path"@,
        }
    }

    /// The error in words.
    pub fn to_text(&self) -> (r: String)
        ensures
            r@ == self.message(),
    {
        match self {
            UpdateError::UnsupportedOs(os) => text::glued("unsupported OS: ", os.as_str()),
            UpdateError::UnsupportedArchitecture(arch) => text::glued(
                "unsupported architecture: ",
                arch.as_str(),
            ),
            UpdateError::UnpublishedLinuxBuild =>
                "only x86_64 Linux builds are published right now".to_owned(),
            UpdateError::MissingChecksum(name) => text::glued(
                "checksum file did not contain an entry for ",
                name.as_str(),
            ),
            UpdateError::ChecksumMismatch { expected, actual } => {
                let mut out = "checksum mismatch: expected ".to_owned();
                out.append(expected.as_str());
                out.append(", got ");
                out.append(actual.as_str());
                out
            },
            UpdateError::MissingBinary => "release archive did not contain `codex-pool`".to_owned(),
            UpdateError::NoHome => "failed to resolve HOME for install path".to_owned(),
        }
    }
}

// ---------------------------------------------------------------------------
// The release
// ---------------------------------------------------------------------------
/// The tag of a version.
pub open spec fn version_tag(version: Seq<char>) -> Seq<char> {
    if begins_with(trimmed(version), "v"@) {
        trimmed(version)
    } else {
        "v"@ + trimmed(version)
    }
}

/// The tag of a version that may be given.
pub open spec fn requested_tag(version: Option<Seq<char>>) -> Option<Seq<char>> {
    match version {
        Some(version) => Some(version_tag(version)),
        None => None,
    }
}

/// The tag of a version: without white space around it, and with a `v` in front.
pub fn normalize_requested_version(version: Option<&str>) -> (r: Option<String>)
    ensures
        text_view(r) == requested_tag(str_view(version)),
{
    match version {
        Some(version) => {
            let version = text::trim(version);
            if text::starts_with(version.as_str(), "v") {
                Some(version)
            } else {
                Some(text::glued("v", version.as_str()))
            }
        },
        None => None,
    }
}

/// Where an archive is fetched from.
pub open spec fn archive_url(archive_name: Seq<char>, version: Option<Seq<char>>) -> Seq<char> {
    match requested_tag(version) {
        Some(tag) => "https://github.com/lilong7676/codex-pool/releases/download/"@ + tag + "/"@
            + archive_name,
        None => "https://github.com/lilong7676/codex-pool/releases/latest/download/"@
            + archive_name,
    }
}

/// Where an archive is fetched from: the release of a version, or the latest.
pub fn resolve_archive_url(archive_name: &str, version: Option<&str>) -> (r: String)
    ensures
        r@ == archive_url(archive_name@, str_view(version)),
{
    match normalize_requested_version(version) {
        Some(tag) => {
            let mut url = "https://github.com/lilong7676/codex-pool/releases/download/".to_owned();
            url.append(tag.as_str());
            url.append("/");
            url.append(archive_name);
            url
        },
        None => text::glued(
            "https://github.com/lilong7676/codex-pool/releases/latest/download/",
            archive_name,
        ),
    }
}

/// The platform that a release is built for.
pub open spec fn release_target(os: Seq<char>, arch: Seq<char>) -> Option<Seq<char>> {
    if os == "macos"@ && arch == "aarch64"@ {
        Some("aarch64-apple-darwin"@)
    } else if os == "macos"@ && arch == "x86_64"@ {
        Some("x86_64-apple-darwin"@)
    } else if os == "linux"@ && arch == "x86_64"@ {
        Some("x86_64-unknown-linux-gnu"@)
    } else {
        None
    }
}

/// Whether an error is the one of a platform without a release: the operating system is
/// looked at first, then the architecture, then whether the two are built together.
pub open spec fn is_target_error(error: UpdateError, os: Seq<char>, arch: Seq<char>) -> bool {
    match error {
        UpdateError::UnsupportedOs(named) => named@ == os && os != "macos"@ && os != "linux"@,
        UpdateError::UnsupportedArchitecture(named) => named@ == arch && (os == "macos"@ || os
            == "linux"@) && arch != "aarch64"@ && arch != "x86_64"@,
        UpdateError::UnpublishedLinuxBuild => os == "linux"@ && arch == "aarch64"@,
        _ => false,
    }
}

/// The platform of the release for an operating system and an architecture.
pub fn detect_target(os: &str, arch: &str) -> (r: Result<String, UpdateError>)
    ensures
        match r {
            Ok(target) => release_target(os@, arch@) == Some(target@),
            Err(error) => release_target(os@, arch@) is None && is_target_error(error, os@, arch@),
        },
{
    proof {
        reveal_strlit("macos");
        reveal_strlit("linux");
        reveal_strlit("aarch64");
        reveal_strlit("x86_64");
        assert("macos"@[0] != "linux"@[0]);
        assert("aarch64"@.len() != "x86_64"@.len());
    }
    let macos = text::same(os, "macos");
    if !macos && !text::same(os, "linux") {
        return Err(UpdateError::UnsupportedOs(os.to_owned()));
    }
    let intel = text::same(arch, "x86_64");
    if !intel && !text::same(arch, "aarch64") {
        return Err(UpdateError::UnsupportedArchitecture(arch.to_owned()));
    }
    if macos {
        return if intel {
            Ok("x86_64-apple-darwin".to_owned())
        } else {
            Ok("aarch64-apple-darwin".to_owned())
        };
    }
    if intel {
        Ok("x86_64-unknown-linux-gnu".to_owned())
    } else {
        Err(UpdateError::UnpublishedLinuxBuild)
    }
}

/// What an update fetches.
#[derive(Debug)]
pub struct ReleasePlan {
    pub requested_version: String,
    pub archive_name: String,
    pub archive_url: String,
    pub checksum_url: String,
}

/// Whether a plan is the one for a version and a platform.
pub open spec fn is_plan_for(
    plan: ReleasePlan,
    version: Option<Seq<char>>,
    target: Seq<char>,
) -> bool {
    &&& plan.requested_version@ == match requested_tag(version) {
        Some(tag) => tag,
        None => "latest"@,
    }
    &&& plan.archive_name@ == "codex-pool-"@ + target + ".tar.gz"@
    &&& plan.archive_url@ == archive_url(plan.archive_name@, version)
    &&& plan.checksum_url@ == plan.archive_url@ + ".sha256"@
}

/// What an update to a version, or to the latest, fetches.
pub fn plan_release(version: Option<&str>, os: &str, arch: &str) -> (r: Result<
    ReleasePlan,
    UpdateError,
>)
    ensures
        match r {
            Ok(plan) => release_target(os@, arch@) is Some && is_plan_for(
                plan,
                str_view(version),
                release_target(os@, arch@)->0,
            ),
            Err(error) => release_target(os@, arch@) is None && is_target_error(error, os@, arch@),
        },
{
    let target = match detect_target(os, arch) {
        Ok(target) => target,
        Err(error) => return Err(error),
    };
    let requested_version = match normalize_requested_version(version) {
        Some(tag) => tag,
        None => "latest".to_owned(),
    };
    let mut archive_name = text::glued("codex-pool-", target.as_str());
    archive_name.append(".tar.gz");
    let archive_url = resolve_archive_url(archive_name.as_str(), version);
    let checksum_url = text::glued(archive_url.as_str(), ".sha256");
    Ok(ReleasePlan { requested_version, archive_name, archive_url, checksum_url })
}

// ---------------------------------------------------------------------------
// Checksums
// ---------------------------------------------------------------------------
/// The SHA-256 digest of some bytes, as the `sha2` crate computes it.
pub uninterp spec fn sha256_digest(bytes: Seq<u8>) -> Seq<u8>;

/// Calls `Sha256::digest`. A digest has 32 bytes; which they are is left to the
/// name [`sha256_digest`].
#[verifier::external_body]
fn sha256(bytes: &[u8]) -> (r: Vec<u8>)
    ensures
        r@ == sha256_digest(bytes@),
        r@.len() == 32,
{
    Sha256::digest(bytes).to_vec()
}

/// A hexadecimal digit, in lower case.
pub open spec fn hex_digit(n: int) -> char {
    if n < 10 {
        (('0' as u32) + n) as char
    } else {
        (('a' as u32) + (n - 10)) as char
    }
}

/// Bytes in hexadecimal, two digits each.
pub open spec fn hex(bytes: Seq<u8>) -> Seq<char>
    decreases bytes.len(),
{
    if bytes.len() == 0 {
        Seq::empty()
    } else {
        hex(bytes.drop_last()).push(hex_digit((bytes.last() / 16) as int)).push(
            hex_digit((bytes.last() % 16) as int),
        )
    }
}

/// A hexadecimal digit, in lower case.
fn hex_char(n: u8) -> (r: char)
    requires
        n < 16,
    ensures
        r == hex_digit(n as int),
{
    if n < 10 {
        (48 + n) as char
    } else {
        (87 + n) as char
    }
}

/// Bytes in hexadecimal, two digits each.
pub fn lower_hex(bytes: &[u8]) -> (r: String)
    ensures
        r@ == hex(bytes@),
{
    let mut out = String::new();
    let mut i: usize = 0;
    assert(bytes@.take(0) =~= Seq::empty());
    assert(out@ =~= Seq::empty());
    while i < bytes.len()
        invariant
            0 <= i <= bytes@.len(),
            out@ == hex(bytes@.take(i as int)),
        decreases bytes@.len() - i,
    {
        assert(bytes@.take(i + 1).drop_last() =~= bytes@.take(i as int));
        assert(bytes@.take(i + 1).last() == bytes@[i as int]);
        out.push(hex_char(bytes[i] / 16));
        out.push(hex_char(bytes[i] % 16));
        i = i + 1;
    }
    assert(bytes@.take(i as int) =~= bytes@);
    out
}

/// Checks a digest against the checksum that was expected, in either case.
pub fn verify_digest(digest: &[u8], expected_checksum: &str) -> (r: Result<(), UpdateError>)
    ensures
        match r {
            Ok(()) => hex(digest@) == lowered(expected_checksum@),
            Err(UpdateError::ChecksumMismatch { expected, actual }) => {
                &&& hex(digest@) != lowered(expected_checksum@)
                &&& expected@ == expected_checksum@
                &&& actual@ == hex(digest@)
            },
            Err(_) => false,
        },
{
    let actual = lower_hex(digest);
    let expected = text::lower(expected_checksum);
    if text::same(actual.as_str(), expected.as_str()) {
        Ok(())
    } else {
        Err(UpdateError::ChecksumMismatch { expected: expected_checksum.to_owned(), actual })
    }
}

/// Checks some bytes against the checksum that was expected, in either case.
pub fn verify_checksum(bytes: &[u8], expected_checksum: &str) -> (r: Result<(), UpdateError>)
    ensures
        match r {
            Ok(()) => hex(sha256_digest(bytes@)) == lowered(expected_checksum@),
            Err(UpdateError::ChecksumMismatch { expected, actual }) => {
                &&& hex(sha256_digest(bytes@)) != lowered(expected_checksum@)
                &&& expected@ == expected_checksum@
                &&& actual@ == hex(sha256_digest(bytes@))
            },
            Err(_) => false,
        },
{
    let digest = sha256(bytes);
    verify_digest(digest.as_slice(), expected_checksum)
}

/// The checksum that the first line which names an archive gives, in lower case. An
/// asterisk may stand before the name.
pub open spec fn listed_checksum(
    lines: Seq<Seq<char>>,
    archive_name: Seq<char>,
) -> Option<Seq<char>>
    decreases lines.len(),
{
    if lines.len() == 0 {
        None
    } else {
        let words = words_of(lines[0]);
        if words.len() >= 2 && trim_front(words[1], CharClass::Only('*')) == archive_name {
            Some(lowered(words[0]))
        } else {
            listed_checksum(lines.skip(1), archive_name)
        }
    }
}

/// The checksum that a list of checksums gives for an archive.
pub fn parse_checksum(contents: &str, archive_name: &str) -> (r: Result<String, UpdateError>)
    ensures
        match r {
            Ok(checksum) => listed_checksum(lines_of(contents@), archive_name@) == Some(checksum@),
            Err(UpdateError::MissingChecksum(named)) => named@ == archive_name@ && listed_checksum(
                lines_of(contents@),
                archive_name@,
            ) is None,
            Err(_) => false,
        },
{
    let lines = text::lines(contents);
    let ghost views = texts(lines@);
    let mut i: usize = 0;
    assert(views.skip(0) =~= views);
    while i < lines.len()
        invariant
            0 <= i <= lines@.len(),
            views == texts(lines@),
            listed_checksum(lines_of(contents@), archive_name@) == listed_checksum(
                views.skip(i as int),
                archive_name@,
            ),
        decreases lines@.len() - i,
    {
        assert(views.skip(i as int)[0] == lines@[i as int]@);
        assert(views.skip(i as int).skip(1) =~= views.skip(i + 1));
        let words = text::words(lines[i].as_str());
        if words.len() >= 2 {
            assert(texts(words@)[0] == words@[0]@);
            assert(texts(words@)[1] == words@[1]@);
            let name = text::trim_start_of(words[1].as_str(), CharClass::Only('*'));
            if text::same(name.as_str(), archive_name) {
                return Ok(text::lower(words[0].as_str()));
            }
        }
        i = i + 1;
    }
    Err(UpdateError::MissingChecksum(archive_name.to_owned()))
}

/// Whether a result is that of checking a digest: the archive is in the list, and its
/// checksum there is the digest.
pub open spec fn is_checked(
    r: Result<(), UpdateError>,
    digest: Seq<u8>,
    checksums: Seq<char>,
    archive_name: Seq<char>,
) -> bool {
    match listed_checksum(lines_of(checksums), archive_name) {
        None => match r {
            Err(UpdateError::MissingChecksum(named)) => named@ == archive_name,
            _ => false,
        },
        Some(listed) => match r {
            Ok(()) => hex(digest) == lowered(listed),
            Err(UpdateError::ChecksumMismatch { expected, actual }) => {
                &&& hex(digest) != lowered(listed)
                &&& expected@ == listed
                &&& actual@ == hex(digest)
            },
            Err(_) => false,
        },
    }
}

/// Checks an archive against the checksum that a list of checksums gives for it.
pub fn check_archive(archive: &[u8], checksums: &str, archive_name: &str) -> (r: Result<
    (),
    UpdateError,
>)
    ensures
        is_checked(r, sha256_digest(archive@), checksums@, archive_name@),
{
    let expected = match parse_checksum(checksums, archive_name) {
        Ok(expected) => expected,
        Err(error) => return Err(error),
    };
    verify_checksum(archive, expected.as_str())
}

/// The version that a binary reports: the last word of the first line, without the
/// `v` in front.
pub open spec fn reported_version(output: Seq<char>) -> Option<Seq<char>> {
    let lines = lines_of(output);
    if lines.len() == 0 || words_of(lines[0]).len() == 0 {
        None
    } else {
        Some(trim_front(words_of(lines[0]).last(), CharClass::Only('v')))
    }
}

/// The version that a binary reports.
pub fn parse_version_output(output: &str) -> (r: Option<String>)
    ensures
        text_view(r) == reported_version(output@),
{
    let lines = text::lines(output);
    if lines.len() == 0 {
        return None;
    }
    assert(texts(lines@)[0] == lines@[0]@);
    let words = text::words(lines[0].as_str());
    if words.len() == 0 {
        return None;
    }
    let last: usize = words.len() - 1;
    assert(texts(words@).last() == words@[last as int]@);
    Some(text::trim_start_of(words[last].as_str(), CharClass::Only('v')))
}

// ---------------------------------------------------------------------------
// Where it goes
// ---------------------------------------------------------------------------
/// Where a binary is installed.
#[derive(Debug, Clone, Copy, PartialEq, Eq, Structural)]
pub enum InstallPlace {
    /// Where the environment says.
    Configured,
    /// Where the search path has it.
    SearchPath,
    /// Over the program that runs.
    CurrentProgram,
    /// Under the home directory.
    Home,
}

/// Where a binary is installed: where the environment says, else where the search
/// path has it, else over the program that runs if that has its name, else under the
/// home directory.
pub fn choose_install_place(
    configured: bool,
    in_search_path: bool,
    program_name: Option<&str>,
    bin_name: &str,
    has_home: bool,
) -> (r: Result<InstallPlace, UpdateError>)
    ensures
        match r {
            Ok(InstallPlace::Configured) => configured,
            Ok(InstallPlace::SearchPath) => !configured && in_search_path,
            Ok(InstallPlace::CurrentProgram) => !configured && !in_search_path && str_view(
                program_name,
            ) == Some(bin_name@),
            Ok(InstallPlace::Home) => !configured && !in_search_path && str_view(program_name)
                != Some(bin_name@) && has_home,
            Err(error) => error == UpdateError::NoHome && !configured && !in_search_path
                && str_view(program_name) != Some(bin_name@) && !has_home,
        },
{
    if configured {
        return Ok(InstallPlace::Configured);
    }
    if in_search_path {
        return Ok(InstallPlace::SearchPath);
    }
    if let Some(name) = program_name {
        if text::same(name, bin_name) {
            return Ok(InstallPlace::CurrentProgram);
        }
    }
    if has_home {
        Ok(InstallPlace::Home)
    } else {
        Err(UpdateError::NoHome)
    }
}

/// What is done when the new binary could not be moved into its place.
#[derive(Debug, Clone, Copy, PartialEq, Eq, Structural)]
pub enum MoveFallback {
    /// Take the old one away, and try once more.
    ReplaceAndRetry,
    GiveUp,
}

/// What is done when the new binary could not be moved into its place: an old one
/// there is taken away first.
pub fn after_failed_move(old_exists: bool) -> (r: MoveFallback)
    ensures
        r == if old_exists {
            MoveFallback::ReplaceAndRetry
        } else {
            MoveFallback::GiveUp
        },
{
    if old_exists {
        MoveFallback::ReplaceAndRetry
    } else {
        MoveFallback::GiveUp
    }
}

// ---------------------------------------------------------------------------
// Laws
// ---------------------------------------------------------------------------
/// A tag is its own tag.
pub proof fn law_version_tag_is_idempotent(version: Seq<char>)
    ensures
        version_tag(version_tag(version)) == version_tag(version),
        begins_with(version_tag(version), "v"@),
{
    reveal_strlit("v");
    let t = trimmed(version);
    text::lemma_trimmed(version);
    let tag = version_tag(version);
    assert(begins_with(tag, "v"@)) by {
        if !begins_with(t, "v"@) {
            assert(tag.take(1) =~= "v"@);
        }
    }
    assert(tag[0] == 'v') by {
        assert(tag.take(1)[0] == 'v');
    }
    if !begins_with(t, "v"@) {
        assert(tag.last() == if t.len() == 0 {
            'v'
        } else {
            t.last()
        });
    }
    text::lemma_nothing_to_trim(tag);
}

/// The tag of a version is the version without the blanks around it, behind a `v`; a version
/// that has its `v` keeps it.
pub proof fn law_tag_of_a_version(version: Seq<char>)
    ensures
        trimmed(version).len() > 0 && trimmed(version)[0] == 'v' ==> version_tag(version)
            == trimmed(version),
        trimmed(version).len() == 0 || trimmed(version)[0] != 'v' ==> version_tag(version)
            == seq!['v'] + trimmed(version),
        requested_tag(Some(version)) == Some(version_tag(version)),
        requested_tag(None) is None,
{
    reveal_strlit("v");
    let t = trimmed(version);
    assert("v"@ =~= seq!['v']);
    if t.len() > 0 {
        assert(t.take(1) =~= seq![t[0]]);
        if t[0] != 'v' {
            assert(t.take(1)[0] != "v"@[0]);
        }
    }
}

/// An archive is fetched from the release of the version that was asked for, and from the latest
/// one where none was; its checksum stands beside it. The archive is the one of the platform.
pub proof fn law_update_fetches_the_release(
    plan: ReleasePlan,
    version: Option<Seq<char>>,
    target: Seq<char>,
)
    requires
        is_plan_for(plan, version, target),
    ensures
        plan.archive_name@ == "codex-pool-"@ + target + ".tar.gz"@,
        plan.checksum_url@ == plan.archive_url@ + ".sha256"@,
        version is Some ==> plan.requested_version@ == version_tag(version->0)
            && plan.archive_url@ == "https://github.com/lilong7676/codex-pool/releases/download/"@
            + version_tag(version->0) + "/"@ + plan.archive_name@,
        version is None ==> plan.requested_version@ == "latest"@ && plan.archive_url@
            == "https://github.com/lilong7676/codex-pool/releases/latest/download/"@
            + plan.archive_name@,
{
}

/// There are releases for three platforms, each under its own name; for every other one the
/// update is refused.
pub proof fn law_platforms_with_a_release(os: Seq<char>, arch: Seq<char>)
    ensures
        release_target(os, arch) is Some <==> (os == "macos"@ && (arch == "aarch64"@ || arch
            == "x86_64"@)) || (os == "linux"@ && arch == "x86_64"@),
        os == "macos"@ && arch == "aarch64"@ ==> release_target(os, arch) == Some(
            "aarch64-apple-darwin"@,
        ),
        os == "macos"@ && arch == "x86_64"@ ==> release_target(os, arch) == Some(
            "x86_64-apple-darwin"@,
        ),
        os == "linux"@ && arch == "x86_64"@ ==> release_target(os, arch) == Some(
            "x86_64-unknown-linux-gnu"@,
        ),
{
    reveal_strlit("macos");
    reveal_strlit("linux");
    reveal_strlit("aarch64");
    reveal_strlit("x86_64");
    assert("macos"@[0] == 'm');
    assert("linux"@[0] == 'l');
    assert("aarch64"@.len() == 7);
    assert("x86_64"@.len() == 6);
}

/// The number that a hexadecimal digit stands for.
pub open spec fn hex_value(c: char) -> int {
    if '0' <= c <= '9' {
        c as int - '0' as int
    } else {
        c as int - 'a' as int + 10
    }
}

/// Bytes in hexadecimal are two digits each, in lower case, that stand for the byte.
pub proof fn law_hexadecimal_reads_back(bytes: Seq<u8>, i: int)
    requires
        0 <= i < bytes.len(),
    ensures
        hex(bytes).len() == 2 * bytes.len(),
        16 * hex_value(hex(bytes)[2 * i]) + hex_value(hex(bytes)[2 * i + 1]) == bytes[i],
        '0' <= hex(bytes)[2 * i] <= '9' || 'a' <= hex(bytes)[2 * i] <= 'f',
        '0' <= hex(bytes)[2 * i + 1] <= '9' || 'a' <= hex(bytes)[2 * i + 1] <= 'f',
    decreases bytes.len(),
{
    lemma_hex_length(bytes);
    lemma_hex_length(bytes.drop_last());
    let rest = bytes.drop_last();
    if i < rest.len() {
        law_hexadecimal_reads_back(rest, i);
        assert(hex(bytes)[2 * i] == hex(rest)[2 * i]);
        assert(hex(bytes)[2 * i + 1] == hex(rest)[2 * i + 1]);
        assert(rest[i] == bytes[i]);
    } else {
        let byte = bytes.last();
        assert(bytes[i] == byte);
        assert(byte / 16 < 16);
        assert(byte as int == 16 * (byte as int / 16) + byte as int % 16);
    }
}

/// Bytes in hexadecimal are two digits each.
proof fn lemma_hex_length(bytes: Seq<u8>)
    ensures
        hex(bytes).len() == 2 * bytes.len(),
    decreases bytes.len(),
{
    if bytes.len() > 0 {
        lemma_hex_length(bytes.drop_last());
    }
}

/// A list of checksums gives for an archive the first word of the first line whose second word
/// is its name, with or without an asterisk before it.
pub proof fn law_checksum_of_the_first_line_with_the_name(
    lines: Seq<Seq<char>>,
    name: Seq<char>,
    k: int,
)
    requires
        name.len() > 0,
        name[0] != '*',
        0 <= k < lines.len(),
        words_of(lines[k]).len() >= 2,
        words_of(lines[k])[1] == name || words_of(lines[k])[1] == seq!['*'] + name,
        forall|j: int|
            0 <= j < k ==> words_of(#[trigger] lines[j]).len() < 2 || (words_of(lines[j])[1] != name
                && trim_front(words_of(lines[j])[1], CharClass::Only('*')) != name),
    ensures
        listed_checksum(lines, name) == Some(lowered(words_of(lines[k])[0])),
    decreases k,
{
    let class = CharClass::Only('*');
    if k > 0 {
        assert(words_of(lines[0]).len() < 2 || trim_front(words_of(lines[0])[1], class) != name);
        let rest = lines.skip(1);
        assert forall|j: int| 0 <= j < k - 1 implies words_of(#[trigger] rest[j]).len() < 2 || (
        words_of(rest[j])[1] != name && trim_front(words_of(rest[j])[1], class) != name) by {
            assert(rest[j] == lines[j + 1]);
        }
        law_checksum_of_the_first_line_with_the_name(rest, name, k - 1);
    } else {
        let starred = seq!['*'] + name;
        assert(starred.skip(1) =~= name);
        reveal_with_fuel(trim_front, 2);
    }
}

/// An archive is taken only where the list has its name and, in whatever letters, its digest;
/// and it is taken then.
pub proof fn law_only_the_listed_archive_is_taken(
    r: Result<(), UpdateError>,
    digest: Seq<u8>,
    checksums: Seq<char>,
    name: Seq<char>,
)
    requires
        is_checked(r, digest, checksums, name),
    ensures
        r is Ok <==> listed_checksum(lines_of(checksums), name) is Some && hex(digest) == lowered(
            listed_checksum(lines_of(checksums), name)->0,
        ),
        r is Err && listed_checksum(lines_of(checksums), name) is None ==> r->Err_0
            is MissingChecksum,
        r is Err && listed_checksum(lines_of(checksums), name) is Some ==> r->Err_0
            is ChecksumMismatch,
{
}

/// A program reports as its version the last word of its first line, without a `v` before it.
pub proof fn law_reported_version(output: Seq<char>, version: Seq<char>)
    requires
        version.len() > 0,
        version[0] != 'v',
        lines_of(output).len() > 0,
        words_of(lines_of(output)[0]).len() > 0,
        words_of(lines_of(output)[0]).last() == version || words_of(lines_of(output)[0]).last()
            == seq!['v'] + version,
    ensures
        reported_version(output) == Some(version),
{
    let marked = seq!['v'] + version;
    assert(marked.skip(1) =~= version);
    reveal_with_fuel(trim_front, 2);
}

/// A platform without a release is refused for its operating system first, then for its
/// architecture, and else because the two are not built together.
pub proof fn law_why_a_platform_is_refused(error: UpdateError, os: Seq<char>, arch: Seq<char>)
    requires
        is_target_error(error, os, arch),
    ensures
        os != "macos"@ && os != "linux"@ ==> error is UnsupportedOs && error->UnsupportedOs_0@
            == os,
        (os == "macos"@ || os == "linux"@) && arch != "aarch64"@ && arch != "x86_64"@ ==> error
            is UnsupportedArchitecture && error->UnsupportedArchitecture_0@ == arch,
        os == "linux"@ && arch == "aarch64"@ ==> error is UnpublishedLinuxBuild,
        release_target(os, arch) is None,
{
    reveal_strlit("macos");
    reveal_strlit("linux");
    reveal_strlit("aarch64");
    reveal_strlit("x86_64");
    assert("macos"@[0] == 'm');
    assert("linux"@[0] == 'l');
    assert("aarch64"@.len() == 7);
    assert("x86_64"@.len() == 6);
}

} // verus!
