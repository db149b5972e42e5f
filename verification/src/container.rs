//! The transient in-memory form of a parsed container: a manifest plus named
//! volumes and named atoms, together with its ghost model and the
//! well-formedness predicate that parsing establishes and packing preserves.

use vstd::prelude::*;
use vstd::utf8::encode_utf8;

verus! {

/// Ghost mirror of [`VolumeEntry`].
pub struct EntryModel {
    pub is_dir: bool,
    pub path: Seq<char>,
    pub start: u32,
    pub end: u32,
}

/// One directory or file marker inside a volume.  A file marker records the
/// byte range of its content within the volume's backing buffer; a directory
/// marker holds no byte range.
#[derive(Debug, Clone, PartialEq, Eq)]
pub struct VolumeEntry {
    pub is_dir: bool,
    pub path: String,
    pub start: u32,
    pub end: u32,
}

impl View for VolumeEntry {
    type V = EntryModel;

    open spec fn view(&self) -> EntryModel {
        EntryModel { is_dir: self.is_dir, path: self.path@, start: self.start, end: self.end }
    }
}

impl DeepView for VolumeEntry {
    type V = EntryModel;

    open spec fn deep_view(&self) -> EntryModel {
        self.view()
    }
}

/// Ghost mirror of [`Volume`].
pub struct VolumeModel {
    pub name: Seq<char>,
    pub entries: Seq<EntryModel>,
    pub data: Seq<u8>,
}

/// A named, path-addressed bundle of files and directory markers embedded in
/// a container.
#[derive(Debug, Clone, PartialEq, Eq)]
pub struct Volume {
    pub name: String,
    pub entries: Vec<VolumeEntry>,
    pub data: Vec<u8>,
}

impl View for Volume {
    type V = VolumeModel;

    open spec fn view(&self) -> VolumeModel {
        VolumeModel { name: self.name@, entries: self.entries.deep_view(), data: self.data@ }
    }
}

impl DeepView for Volume {
    type V = VolumeModel;

    open spec fn deep_view(&self) -> VolumeModel {
        self.view()
    }
}

/// Ghost mirror of [`BindingRec`].
pub struct BindingModel {
    pub kind: u8,
    pub exports: Seq<char>,
    pub module: Seq<char>,
    pub imports: Seq<Seq<char>>,
}

/// A manifest binding record in its stored, not yet validated form: a kind
/// tag, an exports-interface path, a module reference, and import-interface
/// paths (meaningful only for the extended kind).
#[derive(Debug, Clone, PartialEq, Eq)]
pub struct BindingRec {
    pub kind: u8,
    pub exports: String,
    pub module: String,
    pub imports: Vec<String>,
}

/// The binding kind tag for an interface-only binding.
pub const BINDING_KIND_PLAIN: u8 = 0;

/// The binding kind tag for a binding with an explicit import list.
pub const BINDING_KIND_WITH_IMPORTS: u8 = 1;

impl View for BindingRec {
    type V = BindingModel;

    open spec fn view(&self) -> BindingModel {
        BindingModel {
            kind: self.kind,
            exports: self.exports@,
            module: self.module@,
            imports: self.imports.deep_view(),
        }
    }
}

impl DeepView for BindingRec {
    type V = BindingModel;

    open spec fn deep_view(&self) -> BindingModel {
        self.view()
    }
}

/// Ghost mirror of [`Atom`].
pub struct AtomModel {
    pub name: Seq<char>,
    pub data: Seq<u8>,
}

/// A named raw byte blob inside a container, typically an executable module.
#[derive(Debug, Clone, PartialEq, Eq)]
pub struct Atom {
    pub name: String,
    pub data: Vec<u8>,
}

impl View for Atom {
    type V = AtomModel;

    open spec fn view(&self) -> AtomModel {
        AtomModel { name: self.name@, data: self.data@ }
    }
}

impl DeepView for Atom {
    type V = AtomModel;

    open spec fn deep_view(&self) -> AtomModel {
        self.view()
    }
}

/// Ghost mirror of [`WasiEntry`].
pub struct WasiModel {
    pub command: Seq<char>,
    pub atom: Seq<char>,
}

/// One entry of the manifest's `wasi` namespace map, tying a command name to
/// the atom that implements it.
#[derive(Debug, Clone, PartialEq, Eq)]
pub struct WasiEntry {
    pub command: String,
    pub atom: String,
}

impl View for WasiEntry {
    type V = WasiModel;

    open spec fn view(&self) -> WasiModel {
        WasiModel { command: self.command@, atom: self.atom@ }
    }
}

impl DeepView for WasiEntry {
    type V = WasiModel;

    open spec fn deep_view(&self) -> WasiModel {
        self.view()
    }
}

/// Ghost mirror of [`Manifest`].
pub struct ManifestModel {
    pub fq_name: Seq<char>,
    pub commands: Seq<Seq<char>>,
    pub wasi: Seq<WasiModel>,
    pub bindings: Seq<BindingModel>,
}

/// The structured metadata section of a container: package identity, command
/// declarations, the `wasi` namespace map and the library bindings, each in
/// declaration order.
#[derive(Debug, Clone, PartialEq, Eq)]
pub struct Manifest {
    pub fq_name: String,
    pub commands: Vec<String>,
    pub wasi: Vec<WasiEntry>,
    pub bindings: Vec<BindingRec>,
}

impl View for Manifest {
    type V = ManifestModel;

    open spec fn view(&self) -> ManifestModel {
        ManifestModel {
            fq_name: self.fq_name@,
            commands: self.commands.deep_view(),
            wasi: self.wasi.deep_view(),
            bindings: self.bindings.deep_view(),
        }
    }
}

/// Ghost mirror of [`Container`].
pub struct ContainerModel {
    pub manifest: ManifestModel,
    pub atoms: Seq<AtomModel>,
    pub volumes: Seq<VolumeModel>,
}

/// A parsed container: one package's manifest, atoms and volumes.
#[derive(Debug, Clone, PartialEq, Eq)]
pub struct Container {
    pub manifest: Manifest,
    pub atoms: Vec<Atom>,
    pub volumes: Vec<Volume>,
}

impl View for Container {
    type V = ContainerModel;

    open spec fn view(&self) -> ContainerModel {
        ContainerModel {
            manifest: self.manifest@,
            atoms: self.atoms.deep_view(),
            volumes: self.volumes.deep_view(),
        }
    }
}

/// A character sequence whose UTF-8 encoding fits a 32-bit length prefix.
pub open spec fn str_ok(s: Seq<char>) -> bool {
    encode_utf8(s).len() <= u32::MAX
}

/// A byte blob that fits a 32-bit length prefix.
pub open spec fn blob_ok(b: Seq<u8>) -> bool {
    b.len() <= u32::MAX
}

/// An entry is well formed when its path fits and, for a file marker, its
/// recorded byte range lies within the volume's backing buffer.
pub open spec fn entry_wf(e: EntryModel, data_len: int) -> bool {
    &&& str_ok(e.path)
    &&& !e.is_dir ==> e.start <= e.end && e.end <= data_len
}

pub open spec fn volume_wf(v: VolumeModel) -> bool {
    &&& str_ok(v.name)
    &&& blob_ok(v.data)
    &&& v.entries.len() <= u32::MAX
    &&& forall|i: int| 0 <= i < v.entries.len() ==> entry_wf(#[trigger] v.entries[i], v.data.len() as int)
}

pub open spec fn binding_wf(b: BindingModel) -> bool {
    &&& str_ok(b.exports)
    &&& str_ok(b.module)
    &&& b.imports.len() <= u32::MAX
    &&& forall|i: int| 0 <= i < b.imports.len() ==> str_ok(#[trigger] b.imports[i])
}

pub open spec fn atom_wf(a: AtomModel) -> bool {
    str_ok(a.name) && blob_ok(a.data)
}

pub open spec fn wasi_wf(w: WasiModel) -> bool {
    str_ok(w.command) && str_ok(w.atom)
}

pub open spec fn manifest_wf(m: ManifestModel) -> bool {
    &&& str_ok(m.fq_name)
    &&& m.commands.len() <= u32::MAX
    &&& m.wasi.len() <= u32::MAX
    &&& m.bindings.len() <= u32::MAX
    &&& forall|i: int| 0 <= i < m.commands.len() ==> str_ok(#[trigger] m.commands[i])
    &&& forall|i: int| 0 <= i < m.wasi.len() ==> wasi_wf(#[trigger] m.wasi[i])
    &&& forall|i: int| 0 <= i < m.bindings.len() ==> binding_wf(#[trigger] m.bindings[i])
}

/// The well-formedness invariant of a container: parsing establishes it and
/// packing builds containers that satisfy it.
pub open spec fn container_wf(c: ContainerModel) -> bool {
    &&& manifest_wf(c.manifest)
    &&& c.atoms.len() <= u32::MAX
    &&& c.volumes.len() <= u32::MAX
    &&& forall|i: int| 0 <= i < c.atoms.len() ==> atom_wf(#[trigger] c.atoms[i])
    &&& forall|i: int| 0 <= i < c.volumes.len() ==> volume_wf(#[trigger] c.volumes[i])
}

} // verus!
