use waipack::container::{Atom, BindingRec, Container, Manifest, Volume, VolumeEntry, WasiEntry};
use waipack::errors::LoadError;
use waipack::extract::{extract_commands, extract_libraries, module_stem};
use waipack::meta::{extract_metadata, valid_package_name};
use waipack::sniff::classify_abi;
use waipack::AbiKind;

fn base_container(fq: &str) -> Container {
    Container {
        manifest: Manifest {
            fq_name: fq.to_string(),
            commands: Vec::new(),
            wasi: Vec::new(),
            bindings: Vec::new(),
        },
        atoms: Vec::new(),
        volumes: Vec::new(),
    }
}

fn wasi(cmd: &str, atom: &str) -> WasiEntry {
    WasiEntry {
        command: cmd.to_string(),
        atom: atom.to_string(),
    }
}

fn atom(name: &str, data: &[u8]) -> Atom {
    Atom {
        name: name.to_string(),
        data: data.to_vec(),
    }
}

fn interface_volume(name: &str, path: &str, text: &[u8]) -> Volume {
    Volume {
        name: name.to_string(),
        entries: vec![VolumeEntry {
            is_dir: false,
            path: path.to_string(),
            start: 0,
            end: text.len() as u32,
        }],
        data: text.to_vec(),
    }
}

fn binding(kind: u8, exports: &str, module: &str, imports: &[&str]) -> BindingRec {
    BindingRec {
        kind,
        exports: exports.to_string(),
        module: module.to_string(),
        imports: imports.iter().map(|s| s.to_string()).collect(),
    }
}

#[test]
fn metadata_splits_on_first_at() {
    let m = extract_metadata("foo@1.2.3").expect("must split");
    assert_eq!(m.name, "foo");
    assert_eq!(m.version, "1.2.3");
}

#[test]
fn metadata_without_at_fails() {
    assert!(matches!(
        extract_metadata("foo-1.2.3"),
        Err(LoadError::InternalInvariant { .. })
    ));
}

#[test]
fn metadata_splits_on_the_first_of_several_ats() {
    let m = extract_metadata("foo@1.2@3").expect("must split");
    assert_eq!(m.name, "foo");
    assert_eq!(m.version, "1.2@3");
}

#[test]
fn metadata_validates_name_grammar() {
    match extract_metadata("Bad Name@1.0") {
        Err(LoadError::InvalidPackageName { name }) => assert_eq!(name, "Bad Name"),
        other => panic!("expected InvalidPackageName, got {:?}", other),
    }
    assert!(valid_package_name("my-pkg_2"));
    assert!(!valid_package_name(""));
    assert!(!valid_package_name("UPPER"));
}

#[test]
fn sniffer_detects_marker_anywhere() {
    let mut bytes = b"prefix junk ".to_vec();
    bytes.extend_from_slice(b"wasi_snapshot_preview1");
    bytes.extend_from_slice(b" suffix");
    assert_eq!(classify_abi(&bytes), AbiKind::Wasi);
}

#[test]
fn sniffer_without_marker_yields_none() {
    assert_eq!(
        classify_abi(&b"no marker in here at all".to_vec()),
        AbiKind::NoneDetected
    );
}

#[test]
fn sniffer_on_empty_buffer_yields_none() {
    assert_eq!(classify_abi(&Vec::new()), AbiKind::NoneDetected);
}

#[test]
fn commands_preserve_manifest_declaration_order() {
    let mut c = base_container("foo@1.0");
    c.manifest.commands = vec!["beta".to_string(), "alpha".to_string()];
    c.manifest.wasi = vec![wasi("alpha", "a"), wasi("beta", "b")];
    c.atoms = vec![atom("a", b"A"), atom("b", b"B")];
    let cmds = extract_commands(&c, "foo@1.0").expect("must extract");
    assert_eq!(cmds.len(), 2);
    assert_eq!(cmds[0].name, "beta");
    assert_eq!(cmds[0].wasm, b"B".to_vec());
    assert_eq!(cmds[1].name, "alpha");
    assert_eq!(cmds[1].wasm, b"A".to_vec());
}

#[test]
fn command_without_wasi_entry_is_unresolved() {
    let mut c = base_container("foo@1.0");
    c.manifest.commands = vec!["ghost".to_string()];
    match extract_commands(&c, "foo@1.0") {
        Err(LoadError::UnresolvedCommandAtom { command }) => assert_eq!(command, "ghost"),
        other => panic!("expected UnresolvedCommandAtom, got {:?}", other.map(|_| ())),
    }
}

#[test]
fn command_with_absent_atom_is_missing() {
    let mut c = base_container("foo@1.0");
    c.manifest.commands = vec!["run".to_string()];
    c.manifest.wasi = vec![wasi("run", "gone")];
    match extract_commands(&c, "foo@1.0") {
        Err(LoadError::MissingAtom { atom }) => assert_eq!(atom, "gone"),
        other => panic!("expected MissingAtom, got {:?}", other.map(|_| ())),
    }
}

#[test]
fn repeated_wasi_declaration_shadows_earlier() {
    let mut c = base_container("foo@1.0");
    c.manifest.commands = vec!["run".to_string()];
    c.manifest.wasi = vec![wasi("run", "old"), wasi("run", "new")];
    c.atoms = vec![atom("old", b"O"), atom("new", b"N")];
    let cmds = extract_commands(&c, "foo@1.0").expect("must extract");
    assert_eq!(cmds[0].wasm, b"N".to_vec());
}

#[test]
fn plain_binding_yields_zero_imports() {
    let mut c = base_container("foo@1.0");
    c.volumes = vec![interface_volume("meta", "exports.wai", b"ping: func()\n")];
    c.atoms = vec![atom("mod.wasm", b"plain module")];
    c.manifest.bindings = vec![binding(0, "meta://exports.wai", "atoms://mod.wasm", &[])];
    let libs = extract_libraries(&c, "foo@1.0").expect("must extract");
    assert_eq!(libs.len(), 1);
    assert_eq!(libs[0].imports.len(), 0);
    assert_eq!(libs[0].module.name, "mod");
    assert_eq!(libs[0].module.abi, AbiKind::NoneDetected);
    assert_eq!(libs[0].module.wasm, b"plain module".to_vec());
}

#[test]
fn extended_binding_resolves_imports_in_order() {
    let mut c = base_container("foo@1.0");
    let mut data = b"ping: func()\n".to_vec();
    let split = data.len() as u32;
    data.extend_from_slice(b"pong: func()\n");
    c.volumes = vec![Volume {
        name: "meta".to_string(),
        entries: vec![
            VolumeEntry {
                is_dir: false,
                path: "exports.wai".to_string(),
                start: 0,
                end: split,
            },
            VolumeEntry {
                is_dir: false,
                path: "imports.wai".to_string(),
                start: split,
                end: data.len() as u32,
            },
        ],
        data,
    }];
    c.atoms = vec![atom("mod.wasm", b"wasi_snapshot_preview1 inside")];
    c.manifest.bindings = vec![binding(
        1,
        "meta://exports.wai",
        "atoms://mod.wasm",
        &["meta://imports.wai"],
    )];
    let libs = extract_libraries(&c, "foo@1.0").expect("must extract");
    assert_eq!(libs.len(), 1);
    assert_eq!(libs[0].imports.len(), 1);
    assert_eq!(libs[0].module.abi, AbiKind::Wasi);
}

#[test]
fn unknown_binding_kind_is_invalid_metadata() {
    let mut c = base_container("foo@1.0");
    c.manifest.bindings = vec![binding(7, "meta://e.wai", "atoms://m.wasm", &[])];
    assert!(matches!(
        extract_libraries(&c, "foo@1.0"),
        Err(LoadError::InvalidBindingMetadata { .. })
    ));
}

#[test]
fn empty_exports_path_is_missing_exports() {
    let mut c = base_container("foo@1.0");
    c.manifest.bindings = vec![binding(0, "", "atoms://m.wasm", &[])];
    assert!(matches!(
        extract_libraries(&c, "foo@1.0"),
        Err(LoadError::MissingExports)
    ));
}

#[test]
fn non_utf8_interface_text_is_rejected() {
    let mut c = base_container("foo@1.0");
    c.volumes = vec![interface_volume("meta", "exports.wai", &[0xff, 0xfe, 0x01])];
    c.atoms = vec![atom("mod.wasm", b"x")];
    c.manifest.bindings = vec![binding(0, "meta://exports.wai", "atoms://mod.wasm", &[])];
    match extract_libraries(&c, "foo@1.0") {
        Err(LoadError::NonUtf8Interface { path }) => assert_eq!(path, "meta://exports.wai"),
        other => panic!("expected NonUtf8Interface, got {:?}", other.map(|_| ())),
    }
}

#[test]
fn unparsable_interface_text_is_rejected() {
    let mut c = base_container("foo@1.0");
    c.volumes = vec![interface_volume("meta", "exports.wai", b"!!! not wai !!!")];
    c.atoms = vec![atom("mod.wasm", b"x")];
    c.manifest.bindings = vec![binding(0, "meta://exports.wai", "atoms://mod.wasm", &[])];
    match extract_libraries(&c, "foo@1.0") {
        Err(LoadError::InterfaceParseError { path }) => assert_eq!(path, "meta://exports.wai"),
        other => panic!("expected InterfaceParseError, got {:?}", other.map(|_| ())),
    }
}

#[test]
fn module_reference_without_prefix_is_invalid_metadata() {
    let mut c = base_container("foo@1.0");
    c.volumes = vec![interface_volume("meta", "exports.wai", b"ping: func()\n")];
    c.manifest.bindings = vec![binding(0, "meta://exports.wai", "mod.wasm", &[])];
    assert!(matches!(
        extract_libraries(&c, "foo@1.0"),
        Err(LoadError::InvalidBindingMetadata { .. })
    ));
}

#[test]
fn absent_module_atom_is_missing_module_atom() {
    let mut c = base_container("foo@1.0");
    c.volumes = vec![interface_volume("meta", "exports.wai", b"ping: func()\n")];
    c.manifest.bindings = vec![binding(0, "meta://exports.wai", "atoms://gone.wasm", &[])];
    match extract_libraries(&c, "foo@1.0") {
        Err(LoadError::MissingModuleAtom { atom }) => assert_eq!(atom, "gone.wasm"),
        other => panic!("expected MissingModuleAtom, got {:?}", other.map(|_| ())),
    }
}

#[test]
fn module_path_without_stem_is_undeterminable() {
    let mut c = base_container("foo@1.0");
    c.volumes = vec![interface_volume("meta", "exports.wai", b"ping: func()\n")];
    c.atoms = vec![atom("dir/", b"x")];
    c.manifest.bindings = vec![binding(0, "meta://exports.wai", "atoms://dir/", &[])];
    assert!(matches!(
        extract_libraries(&c, "foo@1.0"),
        Err(LoadError::UndeterminableModuleName { .. })
    ));
}

#[test]
fn module_stem_drops_directories_and_extension() {
    assert_eq!(module_stem("a/b/mod.wasm"), Some("mod".to_string()));
    assert_eq!(module_stem("mod"), Some("mod".to_string()));
    assert_eq!(module_stem(".hidden"), Some(".hidden".to_string()));
    assert_eq!(module_stem("dir/"), None);
    assert_eq!(module_stem(""), None);
}
