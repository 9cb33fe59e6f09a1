//! Reading the metadata files embedded in a mod jar (a zip archive held in memory).

use vstd::prelude::*;
use crate::text::opt_view;

verus! {

/// Fabric metadata file.
pub const FABRIC_MOD_JSON: &'static str = "fabric.mod.json";
/// Quilt metadata file.
pub const QUILT_MOD_JSON: &'static str = "quilt.mod.json";
/// NeoForge metadata file.
pub const NEOFORGE_MODS_TOML: &'static str = "META-INF/neoforge.mods.toml";
/// Forge metadata file.
pub const MODS_TOML: &'static str = "META-INF/mods.toml";
/// Legacy Forge metadata file.
pub const MCMOD_INFO: &'static str = "mcmod.info";
/// The jar manifest.
pub const JAR_MANIFEST: &'static str = "META-INF/MANIFEST.MF";
/// ModLauncher transformer service registration.
pub const TRANSFORMER_SERVICE: &'static str = "META-INF/services/cpw.mods.modlauncher.api.ITransformer";
/// Legacy FML coremod declaration.
pub const LEGACY_COREMODS: &'static str = "META-INF/coremods.json";

/// The UTF-8 text of the entry `name` of the zip archive whose bytes are
/// `archive`, or `None` when the archive does not open, has no such entry
/// that `by_name` can open (an encrypted entry, or one compressed with a
/// method other than stored or `deflate`, cannot be), or the entry does not
/// decode as UTF-8.
pub uninterp spec fn zip_entry_text(archive: Seq<u8>, name: Seq<char>) -> Option<Seq<char>>;

/// Whether the zip archive whose bytes are `archive` opens and `by_name`
/// opens its entry called `name`: false also for an entry that is encrypted
/// or compressed with a method this build does not support (only `deflate`
/// and stored entries are).
pub uninterp spec fn zip_has_entry(archive: Seq<u8>, name: Seq<char>) -> bool;

/// Reads entry `name` of an in-memory zip archive as text, through
/// `zip::ZipArchive::new`, `ZipArchive::by_name` and
/// `std::io::Read::read_to_string`. The contract claims only that the result is
/// `zip_entry_text` of the archive bytes and the entry name; what the zip crate
/// decodes is not stated.
#[verifier::external_body]
fn read_zip_entry(archive: &[u8], name: &str) -> (r: Option<String>)
    ensures
        opt_view(r) == zip_entry_text(archive@, name@),
{
    let mut zip = zip::ZipArchive::new(std::io::Cursor::new(archive)).ok()?;
    let mut file = zip.by_name(name).ok()?;
    let mut text = String::new();
    std::io::Read::read_to_string(&mut file, &mut text).ok()?;
    Some(text)
}

/// Whether an in-memory zip archive opens (`zip::ZipArchive::new`) and
/// `ZipArchive::by_name` opens its entry called `name`. The contract claims
/// only that the answer is `zip_has_entry` of the archive bytes and the name.
#[verifier::external_body]
fn zip_contains(archive: &[u8], name: &str) -> (r: bool)
    ensures
        r == zip_has_entry(archive@, name@),
{
    match zip::ZipArchive::new(std::io::Cursor::new(archive)) {
        Ok(mut zip) => zip.by_name(name).is_ok(),
        Err(_) => false,
    }
}

/// The metadata files a mod jar may carry, each as text when present.
pub struct EmbeddedMetadataFiles {
    pub fabric_mod_json: Option<String>,
    pub quilt_mod_json: Option<String>,
    pub neoforge_mods_toml: Option<String>,
    pub mods_toml: Option<String>,
    pub mcmod_info: Option<String>,
}

/// Reads every known metadata file of the jar whose bytes are `jar`.
pub fn read_embedded_metadata(jar: &[u8]) -> (r: EmbeddedMetadataFiles)
    ensures
        opt_view(r.fabric_mod_json) == zip_entry_text(jar@, FABRIC_MOD_JSON@),
        opt_view(r.quilt_mod_json) == zip_entry_text(jar@, QUILT_MOD_JSON@),
        opt_view(r.neoforge_mods_toml) == zip_entry_text(jar@, NEOFORGE_MODS_TOML@),
        opt_view(r.mods_toml) == zip_entry_text(jar@, MODS_TOML@),
        opt_view(r.mcmod_info) == zip_entry_text(jar@, MCMOD_INFO@),
{
    EmbeddedMetadataFiles {
        fabric_mod_json: read_zip_entry(jar, FABRIC_MOD_JSON),
        quilt_mod_json: read_zip_entry(jar, QUILT_MOD_JSON),
        neoforge_mods_toml: read_zip_entry(jar, NEOFORGE_MODS_TOML),
        mods_toml: read_zip_entry(jar, MODS_TOML),
        mcmod_info: read_zip_entry(jar, MCMOD_INFO),
    }
}

/// The jar manifest of `jar`, as text.
pub(crate) fn read_jar_manifest(jar: &[u8]) -> (r: Option<String>)
    ensures
        opt_view(r) == zip_entry_text(jar@, JAR_MANIFEST@),
{
    read_zip_entry(jar, JAR_MANIFEST)
}

/// Whether the jar registers a ModLauncher transformer or a legacy coremod,
/// either of which Forge runs on a dedicated server whatever the mod's side.
pub(crate) fn has_transformer_or_coremod(jar: &[u8]) -> (r: bool)
    ensures
        r == (zip_has_entry(jar@, TRANSFORMER_SERVICE@) || zip_has_entry(jar@, LEGACY_COREMODS@)),
{
    zip_contains(jar, TRANSFORMER_SERVICE) || zip_contains(jar, LEGACY_COREMODS)
}

} // verus!
