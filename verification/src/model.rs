//! The manifest data model and the three editing operations.
//!
//! A `Manifest` describes a modpack: a target platform version, an ordered
//! list of loader plugins, free-form metadata, and an ordered list of file
//! references. Three fields are fixed constants of the format. The two lists
//! only ever grow: the operations append and never remove or reorder.

use vstd::prelude::*;

verus! {

/// A loader plugin declaration: an opaque identifier and whether this loader
/// is the primary one. Several loaders may independently be marked primary;
/// no uniqueness is enforced.
#[derive(Debug, Clone, PartialEq, Eq)]
pub struct Loader {
    pub id: String,
    pub primary: bool,
}

/// Mathematical model of a [`Loader`].
#[verifier::ext_equal]
pub struct LoaderModel {
    pub id: Seq<char>,
    pub primary: bool,
}

impl View for Loader {
    type V = LoaderModel;

    open spec fn view(&self) -> LoaderModel {
        LoaderModel { id: self.id@, primary: self.primary }
    }
}

/// A reference to an externally identified file: a project identifier and a
/// file identifier. `required` is always `true` for entries created by the
/// editing operations.
#[derive(Debug, Clone, PartialEq, Eq)]
pub struct FileRef {
    pub project_id: u64,
    pub file_id: u64,
    pub required: bool,
}

/// Mathematical model of a [`FileRef`].
#[verifier::ext_equal]
pub struct FileRefModel {
    pub project_id: u64,
    pub file_id: u64,
    pub required: bool,
}

impl View for FileRef {
    type V = FileRefModel;

    open spec fn view(&self) -> FileRefModel {
        FileRefModel { project_id: self.project_id, file_id: self.file_id, required: self.required }
    }
}

/// The root entity: one modpack manifest document.
#[derive(Debug, Clone, PartialEq, Eq)]
pub struct Manifest {
    /// Identifier of the target runtime/platform version.
    pub mc_version: String,
    /// Ordered list of loader declarations; insertion order is significant.
    pub mod_loaders: Vec<Loader>,
    /// Fixed constant `"minecraftModpack"` identifying the document kind.
    pub manifest_type: String,
    /// Fixed constant `1`.
    pub manifest_version: u8,
    /// Free-form metadata, set once at creation.
    pub name: String,
    /// Free-form metadata, set once at creation.
    pub version: String,
    /// Free-form metadata, set once at creation.
    pub author: String,
    /// Ordered list of file references; insertion order is significant.
    pub files: Vec<FileRef>,
    /// Fixed constant `"overrides"`: the conventional sibling directory name.
    pub overrides: String,
}

/// Mathematical model of a [`Manifest`].
#[verifier::ext_equal]
pub struct ManifestModel {
    pub mc_version: Seq<char>,
    pub mod_loaders: Seq<LoaderModel>,
    pub manifest_type: Seq<char>,
    pub manifest_version: u8,
    pub name: Seq<char>,
    pub version: Seq<char>,
    pub author: Seq<char>,
    pub files: Seq<FileRefModel>,
    pub overrides: Seq<char>,
}

impl View for Manifest {
    type V = ManifestModel;

    open spec fn view(&self) -> ManifestModel {
        ManifestModel {
            mc_version: self.mc_version@,
            mod_loaders: self.mod_loaders@.map_values(|l: Loader| l@),
            manifest_type: self.manifest_type@,
            manifest_version: self.manifest_version,
            name: self.name@,
            version: self.version@,
            author: self.author@,
            files: self.files@.map_values(|f: FileRef| f@),
            overrides: self.overrides@,
        }
    }
}

/// The three fields of the format that are constants for the lifetime of any
/// manifest: the document kind, the format version, and the overrides
/// directory name.
pub open spec fn constants_ok(m: ManifestModel) -> bool {
    &&& m.manifest_type == "minecraftModpack"@
    &&& m.manifest_version == 1u8
    &&& m.overrides == "overrides"@
}

impl Manifest {
    /// Construct a fresh manifest: empty loader and file lists, the fixed
    /// format constants, and the four supplied metadata fields.
    pub fn new(name: String, version: String, author: String, mc_version: String) -> (r: Self)
        ensures
            r@.name == name@,
            r@.version == version@,
            r@.author == author@,
            r@.mc_version == mc_version@,
            r@.mod_loaders == Seq::<LoaderModel>::empty(),
            r@.files == Seq::<FileRefModel>::empty(),
            constants_ok(r@),
    {
        let r = Manifest {
            mc_version,
            mod_loaders: Vec::new(),
            manifest_type: "minecraftModpack".to_owned(),
            manifest_version: 1,
            name,
            version,
            author,
            files: Vec::new(),
            overrides: "overrides".to_owned(),
        };
        proof {
            assert(r@.mod_loaders =~= Seq::<LoaderModel>::empty());
            assert(r@.files =~= Seq::<FileRefModel>::empty());
        }
        r
    }

    /// Append a loader declaration to the end of the loader list. Every other
    /// field, the file list included, is left unchanged; existing loader
    /// entries keep their place and order.
    pub fn add_mod_loader(&mut self, id: String, primary: bool)
        ensures
            final(self)@.mod_loaders == old(self)@.mod_loaders.push(
                (LoaderModel { id: id@, primary }),
            ),
            final(self)@.files == old(self)@.files,
            final(self)@.mc_version == old(self)@.mc_version,
            final(self)@.manifest_type == old(self)@.manifest_type,
            final(self)@.manifest_version == old(self)@.manifest_version,
            final(self)@.name == old(self)@.name,
            final(self)@.version == old(self)@.version,
            final(self)@.author == old(self)@.author,
            final(self)@.overrides == old(self)@.overrides,
            constants_ok(old(self)@) ==> constants_ok(final(self)@),
    {
        let loader = Loader { id, primary };
        let ghost prior = self.mod_loaders@;
        self.mod_loaders.push(loader);
        proof {
            assert(self.mod_loaders@.map_values(|l: Loader| l@) =~= prior.map_values(
                |l: Loader| l@,
            ).push(loader@));
        }
    }

    /// Append a file reference to the end of the file list, with `required`
    /// set to `true`. Every other field, the loader list included, is left
    /// unchanged; existing file entries keep their place and order. No
    /// duplicate detection is performed.
    pub fn add_file(&mut self, project_id: u64, file_id: u64)
        ensures
            final(self)@.files == old(self)@.files.push(
                (FileRefModel { project_id, file_id, required: true }),
            ),
            final(self)@.mod_loaders == old(self)@.mod_loaders,
            final(self)@.mc_version == old(self)@.mc_version,
            final(self)@.manifest_type == old(self)@.manifest_type,
            final(self)@.manifest_version == old(self)@.manifest_version,
            final(self)@.name == old(self)@.name,
            final(self)@.version == old(self)@.version,
            final(self)@.author == old(self)@.author,
            final(self)@.overrides == old(self)@.overrides,
            constants_ok(old(self)@) ==> constants_ok(final(self)@),
    {
        let file = FileRef { project_id, file_id, required: true };
        let ghost prior = self.files@;
        self.files.push(file);
        proof {
            assert(self.files@.map_values(|f: FileRef| f@) =~= prior.map_values(
                |f: FileRef| f@,
            ).push(file@));
        }
    }
}

} // verus!
