//! The normalized in-memory description of a loaded package.  Every field is
//! an independent owned copy, so a `Package` outlives the container bytes it
//! was extracted from.

use vstd::prelude::*;
use wai_bindgen_gen_core::wai_parser::Interface;
use crate::AbiKind;
use crate::meta::{Metadata, MetadataModel};

verus! {

/// Ghost mirror of [`Command`].
pub struct CommandModel {
    pub name: Seq<char>,
    pub wasm: Seq<u8>,
}

/// One manifest-declared command together with its resolved executable
/// module bytes.
#[derive(Debug, Clone, PartialEq, Eq)]
pub struct Command {
    pub name: String,
    pub wasm: Vec<u8>,
}

impl View for Command {
    type V = CommandModel;

    open spec fn view(&self) -> CommandModel {
        CommandModel { name: self.name@, wasm: self.wasm@ }
    }
}

impl DeepView for Command {
    type V = CommandModel;

    open spec fn deep_view(&self) -> CommandModel {
        self.view()
    }
}

/// Ghost mirror of [`Module`].
pub struct ModuleModel {
    pub name: Seq<char>,
    pub abi: AbiKind,
    pub wasm: Seq<u8>,
}

/// An executable module: its derived name, classified ABI and bytes.
#[derive(Debug, Clone, PartialEq, Eq)]
pub struct Module {
    pub name: String,
    pub abi: AbiKind,
    pub wasm: Vec<u8>,
}

impl View for Module {
    type V = ModuleModel;

    open spec fn view(&self) -> ModuleModel {
        ModuleModel { name: self.name@, abi: self.abi, wasm: self.wasm@ }
    }
}

/// Ghost mirror of [`Library`].  The interface values are opaque: the model
/// carries them as they are.
pub struct LibraryModel {
    pub module: ModuleModel,
    pub exports: Interface,
    pub imports: Seq<Interface>,
}

/// One set of language-binding metadata attached to a module: the module
/// itself, its exported interface, and its imported interfaces in manifest
/// declaration order.
pub struct Library {
    pub module: Module,
    pub exports: Interface,
    pub imports: Vec<Interface>,
}

impl View for Library {
    type V = LibraryModel;

    open spec fn view(&self) -> LibraryModel {
        LibraryModel { module: self.module@, exports: self.exports, imports: self.imports@ }
    }
}

impl DeepView for Library {
    type V = LibraryModel;

    open spec fn deep_view(&self) -> LibraryModel {
        self.view()
    }
}

/// Ghost mirror of [`Package`].
pub struct PackageModel {
    pub metadata: MetadataModel,
    pub libraries: Seq<LibraryModel>,
    pub commands: Seq<CommandModel>,
}

/// The normalized description of a loaded package.
pub struct Package {
    pub metadata: Metadata,
    pub libraries: Vec<Library>,
    pub commands: Vec<Command>,
}

impl View for Package {
    type V = PackageModel;

    open spec fn view(&self) -> PackageModel {
        PackageModel {
            metadata: self.metadata@,
            libraries: self.libraries.deep_view(),
            commands: self.commands.deep_view(),
        }
    }
}

} // verus!
