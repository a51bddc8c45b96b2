//! Which kernel program a target needs, and where its source is looked for.

use vstd::prelude::*;
use crate::algo::Algo;
use crate::target::Target;
use crate::target::TargetModel;

verus! {

/// Name of the directory that holds the kernel sources.
pub const KERNEL_DIR: &'static str = "kernels";

/// Name of the project's directory, looked for under the working directory.
pub const PROJECT_DIR: &'static str = "rust_hash_cracker";

/// How many levels above the executable the installation's directory lies.
pub const INSTALL_DEPTH: usize = 3;

/// The places where a kernel source is looked for, in the order of the search.
#[derive(Debug, Clone, Copy, PartialEq, Eq, Structural)]
pub enum KernelLocation {
    /// `KERNEL_DIR` in the installation's directory, which lies `INSTALL_DEPTH`
    /// levels above the executable.
    InstallDir,
    /// `KERNEL_DIR` in `PROJECT_DIR` under the working directory.
    WorkingDirProject,
    /// `KERNEL_DIR` under the working directory.
    WorkingDirKernels,
    /// The bare file name, left to the working directory.
    Bare,
}

/// What the program found at each place: `true` where the place could be
/// named and the file is there.
#[derive(Debug, Clone, Copy, PartialEq, Eq, Structural)]
pub struct KernelProbe {
    pub install_dir: bool,
    pub working_dir_project: bool,
    pub working_dir_kernels: bool,
}

/// The first place of the search at which the file is, or the bare name.
pub open spec fn locate_kernel_spec(probe: KernelProbe) -> KernelLocation {
    if probe.install_dir {
        KernelLocation::InstallDir
    } else if probe.working_dir_project {
        KernelLocation::WorkingDirProject
    } else if probe.working_dir_kernels {
        KernelLocation::WorkingDirKernels
    } else {
        KernelLocation::Bare
    }
}

/// Picks the place to load the kernel source from: the installation's
/// directory first, then the two places under the working directory, and the
/// bare file name when the file is at none of them.
pub fn locate_kernel(probe: KernelProbe) -> (place: KernelLocation)
    ensures
        place == locate_kernel_spec(probe),
{
    if probe.install_dir {
        KernelLocation::InstallDir
    } else if probe.working_dir_project {
        KernelLocation::WorkingDirProject
    } else if probe.working_dir_kernels {
        KernelLocation::WorkingDirKernels
    } else {
        KernelLocation::Bare
    }
}

/// Name of the source file of the kernel for `target`.
pub open spec fn kernel_file_spec(target: TargetModel) -> Seq<char> {
    match target {
        TargetModel::Digest { algo: Algo::MD5, .. } => "md5.cl"@,
        TargetModel::Digest { algo: Algo::SHA1, .. } => "sha1.cl"@,
        TargetModel::Digest { algo: Algo::SHA256, .. } => "sha256.cl"@,
        TargetModel::HandshakeMic { .. } => "wpa.cl"@,
    }
}

/// Name of the entry point of the kernel for `target`.
pub open spec fn entry_point_spec(target: TargetModel) -> Seq<char> {
    match target {
        TargetModel::Digest { .. } => "crack"@,
        TargetModel::HandshakeMic { .. } => "wpa_crack"@,
    }
}

/// The source file of the kernel that matches `target`: one per digest
/// algorithm, and one for handshakes.
pub fn kernel_file(target: &Target) -> (name: &'static str)
    ensures
        name@ == kernel_file_spec(target@),
{
    match target {
        Target::Digest { algo, hash } => match algo {
            Algo::MD5 => "md5.cl",
            Algo::SHA1 => "sha1.cl",
            Algo::SHA256 => "sha256.cl",
        },
        Target::HandshakeMic { ssid, mic } => "wpa.cl",
    }
}

/// The entry point to bind in the compiled program: `crack` for a digest
/// kernel, `wpa_crack` for the handshake kernel.
pub fn entry_point(target: &Target) -> (name: &'static str)
    ensures
        name@ == entry_point_spec(target@),
{
    match target {
        Target::Digest { algo, hash } => "crack",
        Target::HandshakeMic { ssid, mic } => "wpa_crack",
    }
}

} // verus!
