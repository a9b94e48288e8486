use crate::json::{json_nested_str, nested_string, parse_json_text, parsed_json};
use crate::text::str_eq;
use std::path::PathBuf;
use vstd::prelude::*;

verus! {

/// Runs the binaries of the extensions installed under one directory.
pub struct ExtensionExecutor {
    pub extensions_path: PathBuf,
}

impl ExtensionExecutor {
    /// An executor for the extensions under `extensions_path`.
    pub fn new(extensions_path: PathBuf) -> (r: ExtensionExecutor)
        ensures
            r.extensions_path == extensions_path,
    {
        ExtensionExecutor { extensions_path }
    }
}

/// Why an extension cannot be run here.
#[derive(Debug, Clone, Copy, PartialEq, Eq, Structural)]
pub enum ExecutorError {
    /// Extensions ship no binary for this operating system and architecture.
    UnsupportedPlatform,
    /// The extension's `package.json` is not JSON.
    InvalidPackageJson,
}

/// The platform suffix of the folder that holds an extension's binary for an
/// operating system and architecture (as `std::env::consts` name them), if
/// extensions ship one.
pub open spec fn platform_suffix(os: Seq<char>, arch: Seq<char>) -> Option<Seq<char>> {
    if os == "linux"@ && arch == "x86_64"@ {
        Some("-linux-x64"@)
    } else if os == "macos"@ && arch == "aarch64"@ {
        Some("-macos-arm64"@)
    } else if os == "macos"@ && arch == "x86_64"@ {
        Some("-macos-x64"@)
    } else if os == "windows"@ && arch == "x86_64"@ {
        Some("-win-x64.exe"@)
    } else {
        None
    }
}

/// The folder, inside an extension's directory, that holds its binary for this
/// platform: the binary name followed by the platform suffix.
pub fn platform_folder(binary_name: &str, os: &str, arch: &str) -> (r: Result<String, ExecutorError>)
    ensures
        match platform_suffix(os@, arch@) {
            Some(suffix) => r matches Ok(f) && f@ == binary_name@ + suffix,
            None => r == Err::<String, ExecutorError>(ExecutorError::UnsupportedPlatform),
        },
{
    let suffix = if str_eq(os, "linux") && str_eq(arch, "x86_64") {
        "-linux-x64"
    } else if str_eq(os, "macos") && str_eq(arch, "aarch64") {
        "-macos-arm64"
    } else if str_eq(os, "macos") && str_eq(arch, "x86_64") {
        "-macos-x64"
    } else if str_eq(os, "windows") && str_eq(arch, "x86_64") {
        "-win-x64.exe"
    } else {
        return Err(ExecutorError::UnsupportedPlatform);
    };
    Ok(binary_name.to_owned().concat(suffix))
}

/// The binary an executed extension runs: the `bunsan.binary_name` string of its
/// `package.json` when there is one, else the extension's name.
pub fn executable_name(declared: Option<&str>, extension_name: &str) -> (r: String)
    ensures
        r@ == match declared {
            Some(d) => d@,
            None => extension_name@,
        },
{
    match declared {
        Some(d) => d.to_owned(),
        None => extension_name.to_owned(),
    }
}

/// The binary named by a `package.json` text: `executable_name` of its
/// `bunsan.binary_name` string, if the text is JSON.
pub open spec fn declared_binary_spec(package_json: Seq<char>, extension_name: Seq<char>) -> Option<Seq<char>> {
    match parsed_json(package_json) {
        Some(root) => Some(
            match nested_string(root, "bunsan"@, "binary_name"@) {
                Some(d) => d,
                None => extension_name,
            },
        ),
        None => None,
    }
}

/// The binary that an extension with this `package.json` text runs.
pub fn declared_binary_name(package_json: &str, extension_name: &str) -> (r: Result<String, ExecutorError>)
    ensures
        match declared_binary_spec(package_json@, extension_name@) {
            Some(name) => r matches Ok(b) && b@ == name,
            None => r == Err::<String, ExecutorError>(ExecutorError::InvalidPackageJson),
        },
{
    match parse_json_text(package_json) {
        Some(root) => Ok(executable_name(json_nested_str(&root, "bunsan", "binary_name"), extension_name)),
        None => Err(ExecutorError::InvalidPackageJson),
    }
}

/// Where an extension's binary lies inside its directory, as the folder and the
/// binary's name: the `package.json` is read first, then the platform.
pub fn locate_binary(package_json: &str, extension_name: &str, os: &str, arch: &str) -> (r: Result<
    (String, String),
    ExecutorError,
>)
    ensures
        match declared_binary_spec(package_json@, extension_name@) {
            None => r == Err::<(String, String), ExecutorError>(ExecutorError::InvalidPackageJson),
            Some(name) => match platform_suffix(os@, arch@) {
                Some(suffix) => r matches Ok((f, b)) && f@ == name + suffix && b@ == name,
                None => r == Err::<(String, String), ExecutorError>(ExecutorError::UnsupportedPlatform),
            },
        },
{
    let binary_name = match declared_binary_name(package_json, extension_name) {
        Ok(b) => b,
        Err(e) => return Err(e),
    };
    match platform_folder(binary_name.as_str(), os, arch) {
        Ok(folder) => Ok((folder, binary_name)),
        Err(e) => Err(e),
    }
}

} // verus!
