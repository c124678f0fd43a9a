//! Schema versions of the configuration files, and the store's errors.
use vstd::prelude::*;

use crate::domain::error::ValidationError;
use crate::domain::service::Service;
use crate::domain::settings::AppSettings;
use crate::store::secrets::SecretError;
use crate::text::{concat_str, owned};

verus! {

pub const SCHEMA_VERSION: u32 = 1;

/// Why the store refused or failed an operation.
#[derive(Debug, Clone, PartialEq, Eq)]
pub enum StoreError {
    SchemaTooNew { found: u32 },
    Validation(ValidationError),
    Json(String),
    Io(String),
    Path(String),
    SecretsWithoutFlag,
    InvalidExport(String),
    Keychain(SecretError),
}

impl StoreError {
    /// The message shown for this error.
    pub fn message(&self) -> (r: String)
        ensures
            self is SchemaTooNew ==> r@ == "Pulse needs to be updated to read this config."@,
            self matches StoreError::Json(m) ==> r@ == "failed to parse config: "@ + m@,
            self matches StoreError::Io(m) ==> r@ == "failed to read or write config: "@ + m@,
            self matches StoreError::Path(m) ==> r@ == m@,
            self matches StoreError::InvalidExport(m) ==> r@ == m@,
            self matches StoreError::Validation(e) ==> r@ == crate::domain::error::validation_message(*e),
    {
        match self {
            StoreError::SchemaTooNew { .. } => owned("Pulse needs to be updated to read this config."),
            StoreError::Validation(e) => e.message(),
            StoreError::Json(m) => concat_str("failed to parse config: ", m.as_str()),
            StoreError::Io(m) => concat_str("failed to read or write config: ", m.as_str()),
            StoreError::Path(m) => owned(m.as_str()),
            StoreError::SecretsWithoutFlag => owned("this file contains secret header values"),
            StoreError::InvalidExport(m) => owned(m.as_str()),
            StoreError::Keychain(e) => e.message(),
        }
    }
}

/// A file written by a newer Pulse is refused; older and current versions are read.
pub fn ensure_supported(version: u32) -> (r: Result<(), StoreError>)
    ensures
        r is Ok <==> version <= SCHEMA_VERSION,
        r matches Err(e) ==> e == (StoreError::SchemaTooNew { found: version }),
{
    if version > SCHEMA_VERSION {
        return Err(StoreError::SchemaTooNew { found: version });
    }
    Ok(())
}

/// The envelope of the settings file.
#[derive(Clone)]
pub struct ConfigFile {
    pub schema_version: u32,
    pub settings: AppSettings,
}

/// The envelope of the services file.
#[derive(Clone)]
pub struct ServicesFile {
    pub schema_version: u32,
    pub services: Vec<Service>,
}

impl Default for ConfigFile {
    fn default() -> (r: Self)
        ensures
            r.schema_version == SCHEMA_VERSION,
    {
        ConfigFile { schema_version: SCHEMA_VERSION, settings: AppSettings::default() }
    }
}

impl Default for ServicesFile {
    fn default() -> (r: Self)
        ensures
            r.schema_version == SCHEMA_VERSION,
            r.services@.len() == 0,
    {
        ServicesFile { schema_version: SCHEMA_VERSION, services: Vec::new() }
    }
}

/// Bring a version up to date: `Ok(true)` when it changed and the file must be rewritten.
fn migrate_version(version: &mut u32) -> (r: Result<bool, StoreError>)
    ensures
        *old(version) > SCHEMA_VERSION ==> r == Err::<bool, StoreError>(StoreError::SchemaTooNew { found: *old(version) })
            && *final(version) == *old(version),
        *old(version) == SCHEMA_VERSION ==> r == Ok::<bool, StoreError>(false) && *final(version) == SCHEMA_VERSION,
        *old(version) < SCHEMA_VERSION ==> r == Ok::<bool, StoreError>(true) && *final(version) == SCHEMA_VERSION,
{
    match ensure_supported(*version) {
        Err(e) => {
            return Err(e);
        },
        Ok(()) => {},
    }
    if *version == SCHEMA_VERSION {
        return Ok(false);
    }
    *version = SCHEMA_VERSION;
    Ok(true)
}

/// Version 1 needs no field rewrite; older files are stamped with version 1.
pub fn migrate_config(file: &mut ConfigFile) -> (r: Result<bool, StoreError>)
    ensures
        old(file).schema_version > SCHEMA_VERSION ==> r == Err::<bool, StoreError>(StoreError::SchemaTooNew { found: old(file).schema_version })
            && final(file).schema_version == old(file).schema_version,
        old(file).schema_version <= SCHEMA_VERSION ==> r == Ok::<bool, StoreError>(old(file).schema_version < SCHEMA_VERSION)
            && final(file).schema_version == SCHEMA_VERSION,
        final(file).settings == old(file).settings,
{
    migrate_version(&mut file.schema_version)
}

pub fn migrate_services(file: &mut ServicesFile) -> (r: Result<bool, StoreError>)
    ensures
        old(file).schema_version > SCHEMA_VERSION ==> r == Err::<bool, StoreError>(StoreError::SchemaTooNew { found: old(file).schema_version })
            && final(file).schema_version == old(file).schema_version,
        old(file).schema_version <= SCHEMA_VERSION ==> r == Ok::<bool, StoreError>(old(file).schema_version < SCHEMA_VERSION)
            && final(file).schema_version == SCHEMA_VERSION,
        final(file).services@ == old(file).services@,
{
    migrate_version(&mut file.schema_version)
}

} // verus!
