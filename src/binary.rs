//! Where a module's executable comes from: the release for the host
//! platform, the scheme of its location, and the integrity check of a
//! downloaded artifact against the release's SHA-256 digest.

use vstd::prelude::*;
use vstd::string::{StrSliceExecFns, StringExecFns};

use crate::module::{Module, ModuleRelease, Release};

verus! {

/// A platform that releases are built for.
#[derive(PartialEq, Eq, Structural, Clone, Copy, Debug)]
pub enum Target {
    LinuxAmd64,
    LinuxArm64,
}

/// Why a module's executable could not be had.
#[derive(PartialEq, Eq, Structural, Clone, Copy, Debug)]
pub enum BinaryError {
    /// The module has no metadata.
    MetadataMissing,
    /// The module has no release for the host platform.
    NoRelease(Target),
    /// The host platform is not one that releases are built for.
    UnsupportedPlatform,
    /// The release's location has a scheme other than `file://`, `http://`
    /// and `https://`.
    UnsupportedScheme,
    /// The downloaded bytes do not have the release's digest.
    DigestMismatch,
}

/// The message of an error.
pub open spec fn error_message(e: BinaryError) -> Seq<char> {
    match e {
        BinaryError::MetadataMissing => "module metadata not found"@,
        BinaryError::NoRelease(Target::LinuxAmd64) => "no release info found for LinuxAmd64"@,
        BinaryError::NoRelease(Target::LinuxArm64) => "no release info found for LinuxArm64"@,
        BinaryError::UnsupportedPlatform => "unsupported OS/Arch"@,
        BinaryError::UnsupportedScheme =>
            "unsupported protocol - supported protocols for importing modules: \"file://\", \"http://\", \"https://\""@,
        BinaryError::DigestMismatch => "downloaded binary does not match its sha256 digest"@,
    }
}

impl BinaryError {
    /// What went wrong, in words.
    pub fn message(&self) -> (r: String)
        ensures
            r@ == error_message(*self),
    {
        match self {
            BinaryError::MetadataMissing => String::from_str("module metadata not found"),
            BinaryError::NoRelease(Target::LinuxAmd64) => String::from_str(
                "no release info found for LinuxAmd64",
            ),
            BinaryError::NoRelease(Target::LinuxArm64) => String::from_str(
                "no release info found for LinuxArm64",
            ),
            BinaryError::UnsupportedPlatform => String::from_str("unsupported OS/Arch"),
            BinaryError::UnsupportedScheme => String::from_str(
                "unsupported protocol - supported protocols for importing modules: \"file://\", \"http://\", \"https://\"",
            ),
            BinaryError::DigestMismatch => String::from_str(
                "downloaded binary does not match its sha256 digest",
            ),
        }
    }
}

/// The release target of a host, given its OS and architecture names.
pub open spec fn target_of(os: Seq<char>, arch: Seq<char>) -> Option<Target> {
    if os == "linux"@ && arch == "x86_64"@ {
        Some(Target::LinuxAmd64)
    } else if os == "linux"@ && arch == "aarch64"@ {
        Some(Target::LinuxArm64)
    } else {
        None
    }
}

/// The release of a module for a host.
pub open spec fn locate(md: Module, os: Seq<char>, arch: Seq<char>) -> Result<
    ModuleRelease,
    BinaryError,
> {
    match md.metadata {
        None => Err(BinaryError::MetadataMissing),
        Some(m) => match target_of(os, arch) {
            None => Err(BinaryError::UnsupportedPlatform),
            Some(Target::LinuxAmd64) => match m.release {
                Some(Release::LinuxAmd64(r)) => Ok(r),
                _ => Err(BinaryError::NoRelease(Target::LinuxAmd64)),
            },
            Some(Target::LinuxArm64) => match m.release {
                Some(Release::LinuxArm64(r)) => Ok(r),
                _ => Err(BinaryError::NoRelease(Target::LinuxArm64)),
            },
        },
    }
}

/// `s` begins with `p`.
pub open spec fn has_prefix(s: Seq<char>, p: Seq<char>) -> bool {
    p.len() <= s.len() && s.subrange(0, p.len() as int) == p
}

fn same_text(a: &str, b: &str) -> (r: bool)
    ensures
        r == (a@ == b@),
{
    String::from_str(a) == String::from_str(b)
}

fn starts_with(s: &str, prefix: &str) -> (r: bool)
    ensures
        r == has_prefix(s@, prefix@),
{
    let n = s.unicode_len();
    let m = prefix.unicode_len();
    if m > n {
        return false;
    }
    let mut i: usize = 0;
    while i < m
        invariant
            m == prefix@.len(),
            n == s@.len(),
            m <= n,
            i <= m,
            forall|j: int| 0 <= j < i ==> s@[j] == prefix@[j],
        decreases m - i,
    {
        if s.get_char(i) != prefix.get_char(i) {
            assert(s@.subrange(0, m as int)[i as int] != prefix@[i as int]);
            return false;
        }
        i = i + 1;
    }
    assert(s@.subrange(0, m as int) =~= prefix@);
    true
}

/// The release of the module for the host with the given OS and
/// architecture names.
pub fn get_binary_location<'a>(md: &'a Module, os: &str, arch: &str) -> (r: Result<
    &'a ModuleRelease,
    BinaryError,
>)
    ensures
        match locate(*md, os@, arch@) {
            Ok(rel) => r is Ok && *r->Ok_0 == rel,
            Err(e) => r is Err && r->Err_0 == e,
        },
{
    let target = if same_text(os, "linux") && same_text(arch, "x86_64") {
        Target::LinuxAmd64
    } else if same_text(os, "linux") && same_text(arch, "aarch64") {
        Target::LinuxArm64
    } else {
        match &md.metadata {
            Some(_) => {
                return Err(BinaryError::UnsupportedPlatform);
            },
            None => {
                return Err(BinaryError::MetadataMissing);
            },
        }
    };
    match &md.metadata {
        None => Err(BinaryError::MetadataMissing),
        Some(m) => match (target, &m.release) {
            (Target::LinuxAmd64, Some(Release::LinuxAmd64(r))) => Ok(r),
            (Target::LinuxArm64, Some(Release::LinuxArm64(r))) => Ok(r),
            _ => Err(BinaryError::NoRelease(target)),
        },
    }
}

/// How to obtain the executable.
pub enum BinarySource {
    /// It is on this machine, at this path.
    Local(String),
    /// It is downloaded from this release's location and checked against its
    /// digest.
    Remote(ModuleRelease),
}

/// Location schemes that are downloaded.
pub open spec fn is_remote(loc: Seq<char>) -> bool {
    has_prefix(loc, "http://"@) || has_prefix(loc, "https://"@)
}

/// Where the module's executable for the host comes from: the path of a
/// `file://` location, or the release to download for an `http://` or
/// `https://` one.
pub fn setup_binary(md: &Module, os: &str, arch: &str) -> (r: Result<BinarySource, BinaryError>)
    ensures
        match locate(*md, os@, arch@) {
            Err(e) => r is Err && r->Err_0 == e,
            Ok(rel) => if has_prefix(rel.location@, "file://"@) {
                r is Ok && r->Ok_0 is Local && r->Ok_0->Local_0@ == rel.location@.subrange(
                    "file://"@.len() as int,
                    rel.location@.len() as int,
                )
            } else if is_remote(rel.location@) {
                r is Ok && r->Ok_0 is Remote && r->Ok_0->Remote_0.location@ == rel.location@
                    && r->Ok_0->Remote_0.sha256@ == rel.sha256@
            } else {
                r is Err && r->Err_0 == BinaryError::UnsupportedScheme
            },
        },
{
    let rel = match get_binary_location(md, os, arch) {
        Ok(rel) => rel,
        Err(e) => {
            return Err(e);
        },
    };
    let loc = rel.location.as_str();
    if starts_with(loc, "file://") {
        let prefix_len = "file://".unicode_len();
        let path = loc.substring_char(prefix_len, loc.unicode_len());
        Ok(BinarySource::Local(String::from_str(path)))
    } else if starts_with(loc, "http://") || starts_with(loc, "https://") {
        Ok(
            BinarySource::Remote(
                ModuleRelease { location: rel.location.clone(), sha256: rel.sha256.clone() },
            ),
        )
    } else {
        Err(BinaryError::UnsupportedScheme)
    }
}

/// The SHA-256 digest of some bytes.
pub uninterp spec fn sha256_of(data: Seq<u8>) -> Seq<u8>;

/// Relies on `sha2::Sha256::digest` (through `sha2::Digest`): the SHA-256
/// digest of the bytes, which is 32 bytes long.
#[verifier::external_body]
fn sha256(data: &[u8]) -> (r: Vec<u8>)
    ensures
        r@ == sha256_of(data@),
        r@.len() == 32,
{
    <sha2::Sha256 as sha2::Digest>::digest(data).to_vec()
}

/// The hexadecimal digit of a value below sixteen, in lower case.
pub open spec fn hex_lower(n: u8) -> char {
    if n < 10 {
        (('0' as u8) + n) as char
    } else {
        (('a' as u8) + n - 10) as char
    }
}

/// The hexadecimal digit of a value below sixteen, in upper case.
pub open spec fn hex_upper(n: u8) -> char {
    if n < 10 {
        (('0' as u8) + n) as char
    } else {
        (('A' as u8) + n - 10) as char
    }
}

/// `c` is the hexadecimal digit of `n`, in either case.
pub open spec fn is_hex_digit_of(c: char, n: u8) -> bool {
    c == hex_lower(n) || c == hex_upper(n)
}

/// `hex` writes the bytes `d` in hexadecimal, two digits per byte, most
/// significant first, in either case.
pub open spec fn hex_matches(d: Seq<u8>, hex: Seq<char>) -> bool {
    &&& hex.len() == 2 * d.len()
    &&& forall|i: int|
        0 <= i < d.len() ==> is_hex_digit_of(hex[2 * i], #[trigger] d[i] / 16) && is_hex_digit_of(
            hex[2 * i + 1],
            d[i] % 16,
        )
}

fn digit_matches(c: char, n: u8) -> (r: bool)
    requires
        n < 16,
    ensures
        r == is_hex_digit_of(c, n),
{
    let lower = if n < 10 {
        (('0' as u8) + n) as char
    } else {
        (('a' as u8) + n - 10) as char
    };
    let upper = if n < 10 {
        (('0' as u8) + n) as char
    } else {
        (('A' as u8) + n - 10) as char
    };
    c == lower || c == upper
}

/// `expected` is the hexadecimal form of `digest`.
pub fn digest_matches(digest: &[u8], expected: &str) -> (r: bool)
    ensures
        r == hex_matches(digest@, expected@),
{
    let n = digest.len();
    let m = expected.unicode_len();
    if n > usize::MAX / 2 || m != 2 * n {
        proof {
            if n > usize::MAX / 2 {
                assert(expected@.len() <= usize::MAX);
            }
        }
        return false;
    }
    let mut i: usize = 0;
    while i < n
        invariant
            n == digest@.len(),
            m == expected@.len(),
            m == 2 * n,
            i <= n,
            forall|j: int|
                0 <= j < i ==> is_hex_digit_of(expected@[2 * j], #[trigger] digest@[j] / 16)
                    && is_hex_digit_of(expected@[2 * j + 1], digest@[j] % 16),
        decreases n - i,
    {
        let b = digest[i];
        let hi = expected.get_char(2 * i);
        let lo = expected.get_char(2 * i + 1);
        if !digit_matches(hi, b / 16) || !digit_matches(lo, b % 16) {
            return false;
        }
        i = i + 1;
    }
    true
}

/// Checks downloaded bytes against the hexadecimal SHA-256 digest of the
/// release.
pub fn check_download(data: &[u8], sha256_hex: &str) -> (r: Result<(), BinaryError>)
    ensures
        r is Ok <==> hex_matches(sha256_of(data@), sha256_hex@),
        r is Err ==> r->Err_0 == BinaryError::DigestMismatch,
{
    let digest = sha256(data);
    if digest_matches(digest.as_slice(), sha256_hex) {
        Ok(())
    } else {
        Err(BinaryError::DigestMismatch)
    }
}

} // verus!
