//! Identities and paths: keys, endpoint ids, directories.

use jj_mesh::config::key::{KeyError, MachineKey};
use jj_mesh::config::path::FsPath;
use jj_mesh::config::resolve::{ConfigDir, Found, ResolveError};
use jj_mesh::config::service::ServiceState;
use jj_mesh::net::endpoint::EndpointId;

#[test]
fn keys_round_trip_through_their_file() {
    let key = MachineKey::generate();
    let text = key.to_base64();
    assert_eq!(text.len(), 44);
    assert_ne!(text.as_bytes(), &key.secret()[..]);
    let back = MachineKey::from_base64(&format!(" {text}\n")).unwrap();
    assert_eq!(back.secret(), key.secret());
    assert_eq!(back.endpoint_id(), key.endpoint_id());
    assert_ne!(MachineKey::generate().secret(), key.secret());
}

#[test]
fn base64_is_the_standard_one() {
    let key = MachineKey::from_base64("AAECAwQFBgcICQoLDA0ODxAREhMUFRYXGBkaGxwdHh8=").unwrap();
    let expected: Vec<u8> = (0u8..32).collect();
    assert_eq!(&key.secret()[..], &expected[..]);
}

#[test]
fn keys_hold_their_secret_bytes() {
    let bytes: [u8; 32] = std::array::from_fn(|i| i as u8);
    let key = MachineKey::from_bytes(bytes);
    assert_eq!(key.secret(), &bytes);
    assert_eq!(key.to_base64(), "AAECAwQFBgcICQoLDA0ODxAREhMUFRYXGBkaGxwdHh8=");
    assert_eq!(key.endpoint_id().as_bytes(), iroh::SecretKey::from_bytes(&bytes).public().as_bytes());
}

#[test]
fn malformed_keys_are_refused() {
    match MachineKey::from_base64("not base64!") {
        Err(e) => {
            assert_eq!(e, KeyError::Malformed);
            assert_eq!(e.message(), "failed to decode machine key");
        }
        Ok(_) => panic!("no key"),
    }
    match MachineKey::from_base64("AAEC") {
        Err(e) => {
            assert_eq!(e, KeyError::WrongLength);
            assert_eq!(e.message(), "failed to decode machine key: should be 32 bytes");
        }
        Ok(_) => panic!("too short"),
    }
}

#[test]
fn endpoint_ids_are_the_public_keys() {
    let key = MachineKey::generate();
    let expected = iroh::SecretKey::from_bytes(key.secret()).public();
    let endpoint = key.endpoint_id();
    assert_eq!(endpoint.as_bytes(), expected.as_bytes());
    assert_ne!(endpoint.as_bytes(), key.secret());
    assert_eq!(endpoint.to_text(), expected.to_string());
    assert_eq!(EndpointId::parse(&endpoint.to_text()), Some(endpoint));
    assert_eq!(EndpointId::parse("laptop"), None);
}

#[test]
fn endpoint_ids_read_as_hex() {
    let mut bytes = [0u8; 32];
    bytes[0] = 0xab;
    bytes[31] = 0x0f;
    assert_eq!(
        EndpointId::from_bytes(bytes).to_text(),
        "ab0000000000000000000000000000000000000000000000000000000000000f",
    );
}

#[test]
fn paths_join_like_directories() {
    let base = FsPath::new("/a");
    assert_eq!(base.join("b").display(), "/a/b");
    assert_eq!(FsPath::new("/a/").join("b").display(), "/a/b");
    assert_eq!(base.join("/b").display(), "/b");
    assert_eq!(FsPath::from_bytes(vec![0x2f, 0xff]).display(), "/\u{FFFD}");
}

#[test]
fn paths_strip_what_is_above_them() {
    let strip = |path: &str, base: &str| {
        FsPath::new(path).strip_prefix(&FsPath::new(base)).map(|rest| rest.display())
    };
    assert_eq!(strip("/home/u/x/y", "/home/u"), Some("x/y".to_owned()));
    assert_eq!(strip("/home/u/x/", "/home/u/"), Some("x".to_owned()));
    assert_eq!(strip("/home/u", "/home/u"), Some(String::new()));
    assert_eq!(strip("/home/ux", "/home/u"), None);
    assert_eq!(strip("/home", "/home/u"), None);
    assert_eq!(strip("home/u", "/home/u"), None);
    assert_eq!(strip("//home/./u/a//b", "/home/u"), Some("a//b".to_owned()));
    assert_eq!(strip("/x", "/"), Some("x".to_owned()));
    for (path, base) in [
        ("/home/u/x/y", "/home/u"),
        ("/home/u/x/", "/home/u/"),
        ("/home/u", "/home/u"),
        ("/home/ux", "/home/u"),
        ("//home/./u/a//b", "/home/u"),
        ("/home/u/.", "/home/u"),
        ("/home/u/a/.", "/home/u"),
        ("./a/b", "a"),
        ("./a/b", "."),
        ("a/b", "a"),
        ("/a/../b", "/a"),
        ("/", "/"),
        ("/a", ""),
        ("", ""),
    ] {
        let expected = std::path::Path::new(path)
            .strip_prefix(base)
            .ok()
            .map(|rest| rest.display().to_string());
        assert_eq!(strip(path, base), expected, "{path} below {base}");
    }
}

#[test]
fn paths_are_compared_by_component() {
    let spellings = [
        "", ".", "./", "./.", ".//.", "..", "../", "./..", "...", ".a", "a", "a/", "a/.", "a//",
        "a/./", "./a", ".//a", "././a", "a/b", "a//b", "a/./b", "a/b/", "a/../b", "ab", "/", "//",
        "/.", "/./", "/..", "/p", "/p/", "//p", "/p/.", "/./p", "/p//", "/p/./.", "/p/q", "/p//q",
        "/p/./q/", "/p/..", "/p/../", "/P", "p", "/p.", "/.p",
    ];
    for a in spellings {
        for b in spellings {
            let expected = std::path::Path::new(a) == std::path::Path::new(b);
            assert_eq!(FsPath::new(a).same_path(&FsPath::new(b)), expected, "`{a}` and `{b}`");
            assert_eq!(FsPath::new(a) == FsPath::new(b), expected, "`{a}` and `{b}`");
        }
    }
    assert!(FsPath::from_bytes(vec![0x2f, 0xff]).same_path(&FsPath::from_bytes(vec![
        0x2f, 0xff, 0x2f,
    ])));
}

#[test]
fn paths_know_their_last_name() {
    for path in ["/a/b", "/a/b/", "/a/b/.", "/", "", ".", "..", "/a/..", "a", "./a", "/."] {
        let expected = std::path::Path::new(path)
            .file_name()
            .map(|name| name.to_string_lossy().into_owned());
        let found = FsPath::new(path).file_name().map(|name| name.display());
        assert_eq!(found, expected, "{path}");
    }
}

#[test]
fn the_config_directory_holds_the_files() {
    let dir = ConfigDir::standard(&FsPath::new("/home/u/.config"));
    assert!(!dir.is_custom());
    assert_eq!(dir.path().display(), "/home/u/.config/jj-mesh");
    assert_eq!(dir.machine_key().display(), "/home/u/.config/jj-mesh/machine.key");
    assert_eq!(dir.mesh_file().display(), "/home/u/.config/jj-mesh/mesh.json");
    assert_eq!(dir.settings_file().display(), "/home/u/.config/jj-mesh/config.toml");
    assert_eq!(dir.service_state_file().display(), "/home/u/.config/jj-mesh/service.toml");
    assert_eq!(
        dir.socket_path(Some(FsPath::new("/run/user/1"))).display(),
        "/run/user/1/jj-mesh.sock",
    );
    assert_eq!(dir.socket_path(None).display(), "/home/u/.config/jj-mesh/jj-mesh.sock");
}

#[test]
fn custom_directories_must_exist() {
    let dir = match ConfigDir::custom(FsPath::new("/side"), Found::Directory) {
        Ok(dir) => dir,
        Err(e) => panic!("{}", e.message()),
    };
    assert!(dir.is_custom());
    assert_eq!(
        dir.socket_path(Some(FsPath::new("/run/user/1"))).display(),
        "/side/jj-mesh.sock",
    );
    match ConfigDir::custom(FsPath::new("/side"), Found::Nothing) {
        Err(e) => assert_eq!(e, ResolveError::CannotOpen),
        Ok(_) => panic!("nothing there"),
    }
    match ConfigDir::custom(FsPath::new("/side"), Found::Other) {
        Err(e) => assert_eq!(e.message(), "custom config path is not a directory"),
        Ok(_) => panic!("no directory"),
    }
}

#[test]
fn the_service_record_names_its_installer() {
    let own = ServiceState::by_cli("jj-mesh");
    assert_eq!((own.installer.as_str(), own.label.as_str()), ("cli", "jj-mesh"));
    assert!(own.is_cli());
    let other = ServiceState { installer: "home-manager".to_owned(), label: "x".to_owned() };
    assert!(!other.is_cli());
}
