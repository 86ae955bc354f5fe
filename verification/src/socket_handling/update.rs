//! Which build of the server a host updates itself with.

use vstd::prelude::*;

verus! {

/// The processor architectures that a build exists for.
#[derive(Clone, Copy, Debug, PartialEq, Eq, Structural)]
pub enum HostArch {
    /// x86-64
    X64,
    /// 64-bit ARM
    Arm64,
    /// Any other
    Other,
}

/// The platforms that a build exists for.
#[derive(Clone, Copy, Debug, PartialEq, Eq, Structural)]
pub enum HostPlatform {
    /// Linux
    Linux,
    /// Windows
    Windows,
    /// Any other
    Other,
}

/// `whoami::arch`: the architecture of the machine that runs the call. What
/// comes depends on the machine, so nothing is promised of it. The call
/// panics where the system does not tell its architecture.
#[verifier::external_body]
fn host_arch() -> (arch: HostArch) {
    match whoami::arch() {
        whoami::Arch::X64 => HostArch::X64,
        whoami::Arch::Arm64 => HostArch::Arm64,
        _ => HostArch::Other,
    }
}

/// `whoami::platform`: the platform of the machine that runs the call. What
/// comes depends on the machine, so nothing is promised of it.
#[verifier::external_body]
fn host_platform() -> (platform: HostPlatform) {
    match whoami::platform() {
        whoami::Platform::Linux => HostPlatform::Linux,
        whoami::Platform::Windows => HostPlatform::Windows,
        _ => HostPlatform::Other,
    }
}

/// The build for a host, as its path below the directory of builds; none
/// where no build exists for the host.
pub open spec fn artifact(arch: HostArch, platform: HostPlatform) -> Option<Seq<char>> {
    match (arch, platform) {
        (HostArch::X64, HostPlatform::Linux) => Some("linux/rlsd-musl"@),
        (HostArch::X64, HostPlatform::Windows) => Some("windows/rlsd-x86-64"@),
        (HostArch::Arm64, HostPlatform::Linux) => Some("linux/rlsd-aarch64"@),
        _ => None,
    }
}

/// Whether `path` is the path `model`, or absent as `model` is.
pub open spec fn is_artifact(path: Option<&'static str>, model: Option<Seq<char>>) -> bool {
    match model {
        Some(text) => path matches Some(held) && held@ == text,
        None => path is None,
    }
}

/// The build that a host of `arch` and `platform` updates itself with.
pub fn update_artifact(arch: HostArch, platform: HostPlatform) -> (path: Option<&'static str>)
    ensures
        is_artifact(path, artifact(arch, platform)),
{
    match (arch, platform) {
        (HostArch::X64, HostPlatform::Linux) => Some("linux/rlsd-musl"),
        (HostArch::X64, HostPlatform::Windows) => Some("windows/rlsd-x86-64"),
        (HostArch::Arm64, HostPlatform::Linux) => Some("linux/rlsd-aarch64"),
        _ => None,
    }
}

/// The build that the machine running the call updates itself with: the
/// one for some architecture and platform, whichever the machine has.
pub fn host_artifact() -> (path: Option<&'static str>)
    ensures
        exists|arch: HostArch, platform: HostPlatform| #[trigger]
            is_artifact(path, artifact(arch, platform)),
{
    update_artifact(host_arch(), host_platform())
}

} // verus!
