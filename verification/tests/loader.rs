use waipack::codec::{encode_container, parse_container};
use waipack::container::{Atom, BindingRec, Container, Manifest, Volume, VolumeEntry, WasiEntry};
use waipack::errors::LoadError;
use waipack::load::load_bytes;
use waipack::pack::{pack_directory, FileEntry};

fn empty_manifest(fq: &str) -> Manifest {
    Manifest {
        fq_name: fq.to_string(),
        commands: Vec::new(),
        wasi: Vec::new(),
        bindings: Vec::new(),
    }
}

fn command_container(fq: &str, cmd: &str, atom: &str, wasm: &[u8]) -> Container {
    Container {
        manifest: Manifest {
            fq_name: fq.to_string(),
            commands: vec![cmd.to_string()],
            wasi: vec![WasiEntry {
                command: cmd.to_string(),
                atom: atom.to_string(),
            }],
            bindings: Vec::new(),
        },
        atoms: vec![Atom {
            name: atom.to_string(),
            data: wasm.to_vec(),
        }],
        volumes: Vec::new(),
    }
}

#[test]
fn encode_parse_round_trip() {
    let c = command_container("foo@1.2.3", "run", "main", b"\0asm runner");
    let bytes = encode_container(&c);
    let back = parse_container(&bytes).expect("round trip must parse");
    assert_eq!(back.manifest.fq_name, "foo@1.2.3");
    assert_eq!(back.manifest.commands, vec!["run".to_string()]);
    assert_eq!(back.manifest.wasi.len(), 1);
    assert_eq!(back.atoms.len(), 1);
    assert_eq!(back.atoms[0].name, "main");
    assert_eq!(back.atoms[0].data, b"\0asm runner".to_vec());
}

#[test]
fn parse_rejects_bad_magic() {
    let c = command_container("foo@1.2.3", "run", "main", b"x");
    let mut bytes = encode_container(&c);
    bytes[0] ^= 0xff;
    match parse_container(&bytes) {
        Err(LoadError::ParseError { .. }) => {}
        other => panic!("expected a parse error, got {:?}", other.map(|_| ())),
    }
}

#[test]
fn parse_rejects_truncation() {
    let c = command_container("foo@1.2.3", "run", "main", b"payload");
    let bytes = encode_container(&c);
    let cut: Vec<u8> = bytes[..bytes.len() - 3].to_vec();
    assert!(matches!(
        parse_container(&cut),
        Err(LoadError::ParseError { .. })
    ));
}

#[test]
fn parse_rejects_trailing_bytes() {
    let c = command_container("foo@1.2.3", "run", "main", b"payload");
    let mut bytes = encode_container(&c);
    bytes.push(0);
    assert!(matches!(
        parse_container(&bytes),
        Err(LoadError::ParseError { .. })
    ));
}

#[test]
fn parse_rejects_entry_range_outside_data() {
    let mut c = command_container("foo@1.2.3", "run", "main", b"x");
    c.volumes.push(Volume {
        name: "vol".to_string(),
        entries: vec![VolumeEntry {
            is_dir: false,
            path: "a.wai".to_string(),
            start: 0,
            end: 99,
        }],
        data: vec![1, 2, 3],
    });
    let bytes = encode_container(&c);
    assert!(matches!(
        parse_container(&bytes),
        Err(LoadError::ParseError { .. })
    ));
}

#[test]
fn load_yields_command_bytes() {
    let c = command_container("foo@1.2.3", "run", "main", b"module-bytes");
    let bytes = encode_container(&c);
    let p = load_bytes(&bytes).expect("load must succeed");
    assert_eq!(p.metadata.name, "foo");
    assert_eq!(p.metadata.version, "1.2.3");
    assert_eq!(p.commands.len(), 1);
    assert_eq!(p.commands[0].name, "run");
    assert_eq!(p.commands[0].wasm, b"module-bytes".to_vec());
    assert_eq!(p.libraries.len(), 0);
}

#[test]
fn load_is_deterministic_on_identical_bytes() {
    let c = command_container("foo@1.2.3", "run", "main", b"abc");
    let bytes = encode_container(&c);
    let p1 = load_bytes(&bytes).expect("first load");
    let p2 = load_bytes(&bytes).expect("second load");
    assert_eq!(p1.metadata, p2.metadata);
    assert_eq!(p1.commands, p2.commands);
    assert_eq!(p1.libraries.len(), p2.libraries.len());
}

#[test]
fn load_rejects_invalid_package_name() {
    let c = command_container("FOO@1.2.3", "run", "main", b"x");
    let bytes = encode_container(&c);
    match load_bytes(&bytes) {
        Err(LoadError::InvalidPackageName { name }) => assert_eq!(name, "FOO"),
        other => panic!("expected InvalidPackageName, got {:?}", other.map(|_| ())),
    }
}

#[test]
fn load_rejects_identifier_without_at() {
    let c = Container {
        manifest: empty_manifest("foo-1.2.3"),
        atoms: Vec::new(),
        volumes: Vec::new(),
    };
    let bytes = encode_container(&c);
    assert!(matches!(
        load_bytes(&bytes),
        Err(LoadError::InternalInvariant { .. })
    ));
}

#[test]
fn pack_then_load_round_trips_command_bytes() {
    let desc = b"package foo@1.2.3\ncommand run main\natom main mod.wasm\n".to_vec();
    let files = vec![
        FileEntry {
            is_dir: false,
            path: "package.desc".to_string(),
            content: desc,
        },
        FileEntry {
            is_dir: false,
            path: "mod.wasm".to_string(),
            content: b"original-atom-bytes".to_vec(),
        },
    ];
    let bytes = pack_directory(&files).expect("pack must succeed");
    let p = load_bytes(&bytes).expect("load must succeed");
    assert_eq!(p.metadata.name, "foo");
    assert_eq!(p.metadata.version, "1.2.3");
    assert_eq!(p.commands.len(), 1);
    assert_eq!(p.commands[0].name, "run");
    assert_eq!(p.commands[0].wasm, b"original-atom-bytes".to_vec());
}

#[test]
fn pack_requires_descriptor() {
    let files = vec![FileEntry {
        is_dir: false,
        path: "mod.wasm".to_string(),
        content: b"x".to_vec(),
    }];
    assert!(matches!(
        pack_directory(&files),
        Err(LoadError::MissingDescriptor)
    ));
}

#[test]
fn pack_rejects_malformed_descriptor() {
    let files = vec![FileEntry {
        is_dir: false,
        path: "package.desc".to_string(),
        content: b"package foo@1\nnonsense line here\n".to_vec(),
    }];
    assert!(matches!(
        pack_directory(&files),
        Err(LoadError::PackError { .. })
    ));
}

#[test]
fn pack_rejects_missing_atom_source() {
    let files = vec![FileEntry {
        is_dir: false,
        path: "package.desc".to_string(),
        content: b"package foo@1\natom main missing.wasm\n".to_vec(),
    }];
    assert!(matches!(
        pack_directory(&files),
        Err(LoadError::PackError { .. })
    ));
}

#[test]
fn packed_volume_keeps_directory_markers_and_file_bytes() {
    let files = vec![
        FileEntry {
            is_dir: false,
            path: "package.desc".to_string(),
            content: b"package foo@1.0\n".to_vec(),
        },
        FileEntry {
            is_dir: true,
            path: "sub".to_string(),
            content: Vec::new(),
        },
        FileEntry {
            is_dir: false,
            path: "sub/a.txt".to_string(),
            content: b"hello".to_vec(),
        },
    ];
    let bytes = pack_directory(&files).expect("pack must succeed");
    let c = parse_container(&bytes).expect("parse must succeed");
    assert_eq!(c.volumes.len(), 1);
    let vol = &c.volumes[0];
    assert_eq!(vol.name, "files");
    assert_eq!(vol.entries.len(), 3);
    assert!(vol.entries[1].is_dir);
    let e = &vol.entries[2];
    assert!(!e.is_dir);
    assert_eq!(
        &vol.data[e.start as usize..e.end as usize],
        b"hello".as_slice()
    );
}

#[test]
fn binding_lines_survive_packing() {
    let desc = b"package foo@1.0\nbinding files://a.wai atoms://m.wasm\nbinding-imports files://a.wai atoms://m.wasm files://i.wai\n".to_vec();
    let files = vec![FileEntry {
        is_dir: false,
        path: "package.desc".to_string(),
        content: desc,
    }];
    let bytes = pack_directory(&files).expect("pack must succeed");
    let c = parse_container(&bytes).expect("parse must succeed");
    assert_eq!(c.manifest.bindings.len(), 2);
    let b0: &BindingRec = &c.manifest.bindings[0];
    assert_eq!(b0.kind, 0);
    assert_eq!(b0.exports, "files://a.wai");
    assert_eq!(b0.module, "atoms://m.wasm");
    assert_eq!(b0.imports.len(), 0);
    let b1 = &c.manifest.bindings[1];
    assert_eq!(b1.kind, 1);
    assert_eq!(b1.imports, vec!["files://i.wai".to_string()]);
}
