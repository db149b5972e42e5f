use waipack::container::{Container, Manifest, Volume, VolumeEntry};
use waipack::errors::LoadError;
use waipack::resolve::resolve;

fn container_with_volume(fq: &str, vol: Volume) -> Container {
    Container {
        manifest: Manifest {
            fq_name: fq.to_string(),
            commands: Vec::new(),
            wasi: Vec::new(),
            bindings: Vec::new(),
        },
        atoms: Vec::new(),
        volumes: vec![vol],
    }
}

fn file_entry(path: &str, start: u32, end: u32) -> VolumeEntry {
    VolumeEntry {
        is_dir: false,
        path: path.to_string(),
        start,
        end,
    }
}

fn dir_entry(path: &str) -> VolumeEntry {
    VolumeEntry {
        is_dir: true,
        path: path.to_string(),
        start: 0,
        end: 0,
    }
}

#[test]
fn resolves_nested_path_with_directory_chain() {
    let vol = Volume {
        name: "vol".to_string(),
        entries: vec![
            dir_entry("a"),
            dir_entry("a/b"),
            file_entry("a/b/c.wit", 2, 7),
        ],
        data: b"xxhelloxx".to_vec(),
    };
    let c = container_with_volume("foo@1.0", vol);
    let got = resolve(&c, "foo@1.0", "vol://a/b/c.wit").expect("nested path must resolve");
    assert_eq!(got, b"hello".to_vec());
}

#[test]
fn resolves_legacy_flat_entry_without_directory_chain() {
    // A known-defective packer wrote one flat entry literally named
    // "a/b/c.wit" with no directory markers at all.
    let vol = Volume {
        name: "vol".to_string(),
        entries: vec![file_entry("a/b/c.wit", 2, 7)],
        data: b"xxhelloxx".to_vec(),
    };
    let c = container_with_volume("foo@1.0", vol);
    let got = resolve(&c, "foo@1.0", "vol://a/b/c.wit").expect("legacy entry must resolve");
    assert_eq!(got, b"hello".to_vec());
    // The fallback returns the very bytes a direct read of the flat entry
    // gives.
    let direct = &c.volumes[0].data[2..7];
    assert_eq!(got.as_slice(), direct);
}

#[test]
fn missing_file_is_distinct_from_missing_volume() {
    let vol = Volume {
        name: "vol".to_string(),
        entries: Vec::new(),
        data: Vec::new(),
    };
    let c = container_with_volume("foo@1.0", vol);
    match resolve(&c, "foo@1.0", "vol://missing.wit") {
        Err(LoadError::MissingFileInVolume { path }) => assert_eq!(path, "missing.wit"),
        other => panic!("expected MissingFileInVolume, got {:?}", other),
    }
    match resolve(&c, "foo@1.0", "nope://missing.wit") {
        Err(LoadError::MissingVolume { volume }) => assert_eq!(volume, "nope"),
        other => panic!("expected MissingVolume, got {:?}", other),
    }
}

#[test]
fn reference_without_scheme_is_malformed() {
    let vol = Volume {
        name: "vol".to_string(),
        entries: Vec::new(),
        data: Vec::new(),
    };
    let c = container_with_volume("foo@1.0", vol);
    assert!(matches!(
        resolve(&c, "foo@1.0", "vol:missing.wit"),
        Err(LoadError::MalformedReference { .. })
    ));
}

#[test]
fn volume_lookup_is_scoped_to_the_package() {
    let vol = Volume {
        name: "vol".to_string(),
        entries: vec![file_entry("a.wit", 0, 1)],
        data: b"z".to_vec(),
    };
    let c = container_with_volume("foo@1.0", vol);
    assert!(matches!(
        resolve(&c, "other@2.0", "vol://a.wit"),
        Err(LoadError::MissingVolume { .. })
    ));
}

#[test]
fn later_volume_entry_shadows_earlier() {
    let vol = Volume {
        name: "vol".to_string(),
        entries: vec![file_entry("a.wit", 0, 2), file_entry("a.wit", 2, 5)],
        data: b"olDnew".to_vec(),
    };
    let c = container_with_volume("foo@1.0", vol);
    let got = resolve(&c, "foo@1.0", "vol://a.wit").expect("must resolve");
    assert_eq!(got, b"Dne".to_vec());
}
