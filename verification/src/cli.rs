//! The command surface and the resolution of its optional inputs.
//!
//! Each argument may come from the command line, from the environment, or
//! from the per-directory folder configuration; the resolution order is
//! fixed here and proved. The unverified shell parses the actual command
//! line and reads the environment, then hands the plain values in.

use vstd::prelude::*;
use crate::config::FolderConfig;
use crate::errors::EngineError;

verus! {

/// The parsed command line: one command.
pub struct Cli {
    pub command: Commands,
}

/// The three operations the tool offers.
pub enum Commands {
    /// Create a version and upload it to the configured storage.
    Create(CreateArgs),
    /// Switch a folder to a given version.
    Switch(SwitchArgs),
    /// Update to a version, defaulting to what the folder last installed.
    Update(UpdateArgs),
}

/// Arguments of the create operation.
pub struct CreateArgs {
    /// The names to publish the version under.
    pub names: Vec<String>,
    /// The cosmetic display name of the version.
    pub display_version: Option<String>,
    /// The path prefix to prepend to all upload destinations.
    pub filestore_path_prefix: Option<String>,
    /// The directory to create the update from.
    pub input_dir: Option<String>,
}

/// Arguments of the switch operation.
pub struct SwitchArgs {
    /// The name of the version.
    pub name: String,
    /// The path prefix to prepend to all download paths.
    pub filestore_path_prefix: Option<String>,
    /// The directory to update.
    pub output_dir: Option<String>,
    /// The endpoint and bucket of the backing storage.
    pub s3_url: Option<String>,
}

/// Arguments of the update operation.
pub struct UpdateArgs {
    /// The name of the version; the folder's last installed one if absent.
    pub name: Option<String>,
    /// The path prefix to prepend to all download paths.
    pub filestore_path_prefix: Option<String>,
    /// The directory to update.
    pub output_dir: Option<String>,
    /// The endpoint and bucket of the backing storage.
    pub s3_url: Option<String>,
}

/// The first value present: the explicit argument, else the environment's,
/// else the given default.
pub fn resolve_option(arg: Option<String>, env: Option<String>, default: &str) -> (r: String)
    ensures
        r@ == (match arg {
            Some(a) => a@,
            None => match env {
                Some(e) => e@,
                None => default@,
            },
        }),
{
    match arg {
        Option::Some(a) => a,
        Option::None => match env {
            Option::Some(e) => e,
            Option::None => default.to_owned(),
        },
    }
}

/// What a switch or update run needs once every source is consulted.
pub struct ResolvedTarget {
    /// The version name to reconcile against.
    pub version: String,
    /// The storage endpoint.
    pub s3_url: String,
    /// The path prefix inside the store.
    pub path_prefix: String,
}

/// Resolve a switch/update target: explicit arguments first, then the
/// folder's stored configuration. Fails when neither names a version, or
/// neither names a storage endpoint.
pub fn resolve_target(
    name: Option<String>,
    s3_url: Option<String>,
    filestore_path_prefix: Option<String>,
    folder_config: Option<&FolderConfig>,
) -> (r: Result<ResolvedTarget, EngineError>)
    ensures
        match r {
            Ok(t) => {
                &&& t.version@ == (match name {
                    Some(n) => n@,
                    None => folder_config->0.last_installed_version@,
                })
                &&& (name is None ==> folder_config is Some)
                &&& t.s3_url@ == (match s3_url {
                    Some(u) => u@,
                    None => folder_config->0.s3_url@,
                })
                &&& (s3_url is None ==> folder_config is Some)
                &&& t.path_prefix@ == (match filestore_path_prefix {
                    Some(p) => p@,
                    None => match folder_config {
                        Some(fc) => match fc.storage_path_prefix {
                            Some(sp) => sp@,
                            None => "."@,
                        },
                        None => "."@,
                    },
                })
            },
            Err(e) => e matches EngineError::PathError(_)
                && folder_config is None
                && (name is None || s3_url is None),
        },
{
    let version = match name {
        Option::Some(n) => n,
        Option::None => match folder_config {
            Option::Some(fc) => fc.last_installed_version.clone(),
            Option::None => {
                return Err(EngineError::PathError(
                    "no version name given and none stored for this folder".to_owned(),
                ));
            },
        },
    };
    let s3_url = match s3_url {
        Option::Some(u) => u,
        Option::None => match folder_config {
            Option::Some(fc) => fc.s3_url.clone(),
            Option::None => {
                return Err(EngineError::PathError(
                    "no storage endpoint given and none stored for this folder".to_owned(),
                ));
            },
        },
    };
    let path_prefix = match filestore_path_prefix {
        Option::Some(p) => p,
        Option::None => match folder_config {
            Option::Some(fc) => match &fc.storage_path_prefix {
                Option::Some(sp) => sp.clone(),
                Option::None => ".".to_owned(),
            },
            Option::None => ".".to_owned(),
        },
    };
    Ok(ResolvedTarget { version, s3_url, path_prefix })
}

/// Whether the folder configuration must be rewritten after a switch:
/// yes when there is none, or when the version or endpoint changed.
pub fn needs_config_update(
    folder_config: Option<&FolderConfig>,
    version: &String,
    s3_url: &String,
) -> (r: bool)
    ensures
        r == (match folder_config {
            Some(fc) => fc.last_installed_version@ != version@ || fc.s3_url@ != s3_url@,
            None => true,
        }),
{
    match folder_config {
        Option::Some(fc) => {
            !(fc.last_installed_version == *version) || !(fc.s3_url == *s3_url)
        },
        Option::None => true,
    }
}

} // verus!
