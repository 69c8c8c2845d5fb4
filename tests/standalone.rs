use lune::standalone::{decode_length_field, encode_length_field, MAX_BLOCK_LEN};
use lune::{
    install_scripts, resolve_path, GlobalsContextBuilder, LuauScript, Metadata, MetadataError,
    PathComponent,
};

const MARKER: &[u8] = b"M8G2C";

fn script(path: &str, code: &[u8]) -> LuauScript {
    LuauScript(path.to_string(), code.to_vec())
}

fn pairs(meta: &Metadata) -> Vec<(String, Vec<u8>)> {
    meta.scripts.iter().map(|s| (s.0.clone(), s.1.clone())).collect()
}

#[test]
fn pack_two_scripts_round_trip() {
    let base = vec![0xABu8; 100];
    let scripts = vec![
        script("main.luau", b"<bytecode1>"),
        script("lib.luau", b"<bytecode2>"),
    ];
    let image = Metadata::create_env_patched_bin(base.clone(), scripts).unwrap();
    assert_eq!(&image[..100], &base[..]);
    assert!(image.ends_with(MARKER));
    let meta = Metadata::check_env(&image).unwrap().expect("packaged");
    assert_eq!(
        pairs(&meta),
        vec![
            ("main.luau".to_string(), b"<bytecode1>".to_vec()),
            ("lib.luau".to_string(), b"<bytecode2>".to_vec()),
        ]
    );
    assert_eq!(meta.scripts[0].0, "main.luau");
}

#[test]
fn empty_script_list_has_exact_image() {
    let base = vec![1u8, 2, 3];
    let image = Metadata::create_env_patched_bin(base, Vec::new()).unwrap();
    // postcard writes the empty list as one zero byte; LZ4 stores it as a
    // single literal behind its token.
    assert_eq!(image, vec![1, 2, 3, 0x10, 0x00, 2, b'M', b'8', b'G', b'2', b'C']);
    let meta = Metadata::check_env(&image).unwrap().unwrap();
    assert!(meta.scripts.is_empty());
}

#[test]
fn round_trip_with_long_length_fields() {
    // Incompressible bytecode makes blocks that need two and three bytes of
    // length field.
    for size in [200usize, 20_000, 100_000] {
        let mut code = Vec::with_capacity(size);
        let mut x: u32 = 0x1234_5678;
        for _ in 0..size {
            x ^= x << 13;
            x ^= x >> 17;
            x ^= x << 5;
            code.push((x >> 24) as u8);
        }
        let scripts = vec![script("big.luau", &code), script("dir/ü.luau", b"x")];
        let image = Metadata::create_env_patched_bin(vec![7u8; 10], scripts).unwrap();
        let meta = Metadata::check_env(&image).unwrap().unwrap();
        assert_eq!(
            pairs(&meta),
            vec![("big.luau".to_string(), code.clone()), ("dir/ü.luau".to_string(), b"x".to_vec())]
        );
    }
}

#[test]
fn image_without_marker_is_not_packaged() {
    assert!(Metadata::check_env(&[0u8; 64]).unwrap().is_none());
    assert!(Metadata::check_env(&[]).unwrap().is_none());
    assert!(Metadata::check_env(b"M8G2").unwrap().is_none());
    let image = Metadata::create_env_patched_bin(vec![9u8; 20], vec![script("a", b"b")]).unwrap();
    assert!(Metadata::check_env(&image[..image.len() - 1]).unwrap().is_none());
}

#[test]
fn bad_length_field_is_reported() {
    // Three bytes with the continuation bit: no length field.
    let mut image = vec![0x80u8, 0x80, 0x80];
    image.extend_from_slice(MARKER);
    assert_eq!(Metadata::check_env(&image).unwrap_err(), MetadataError::BadLength);
    // A length longer than what stands before it.
    let mut image = vec![1u8, 2, 50];
    image.extend_from_slice(MARKER);
    assert_eq!(Metadata::check_env(&image).unwrap_err(), MetadataError::BadLength);
    // Only the marker.
    assert_eq!(Metadata::check_env(MARKER).unwrap_err(), MetadataError::BadLength);
}

#[test]
fn changed_block_byte_is_never_taken_for_unpackaged() {
    let base = vec![0u8; 16];
    let scripts = vec![script("main.luau", b"return 1"), script("lib.luau", b"return 2")];
    let image = Metadata::create_env_patched_bin(base, scripts).unwrap();
    let field_width = 1;
    let block_end = image.len() - MARKER.len() - field_width;
    let block_len = image[block_end] as usize;
    let mut corrupt = 0;
    for i in block_end - block_len..block_end {
        let mut changed = image.clone();
        changed[i] ^= 0xFF;
        match Metadata::check_env(&changed) {
            Ok(Some(_)) => {}
            Err(MetadataError::CorruptTrailer) => corrupt += 1,
            other => panic!("unexpected result {:?} at byte {}", other.map(|m| m.is_some()), i),
        }
    }
    assert!(corrupt > 0);
}

#[test]
fn corrupt_block_gives_corrupt_trailer() {
    // A block whose token asks for more literals than follow.
    let mut image = vec![0u8; 4];
    image.extend_from_slice(&[0xF0, 0x05]);
    image.push(2);
    image.extend_from_slice(MARKER);
    assert_eq!(Metadata::check_env(&image).unwrap_err(), MetadataError::CorruptTrailer);
    // A block that decompresses to bytes that are not a script list.
    let mut image = vec![0u8; 4];
    image.extend_from_slice(&[0x10, 0x05]);
    image.push(2);
    image.extend_from_slice(MARKER);
    assert_eq!(Metadata::check_env(&image).unwrap_err(), MetadataError::CorruptTrailer);
}

#[test]
fn from_bytes_reads_image_without_marker() {
    let image = Metadata::create_env_patched_bin(vec![5u8; 3], vec![script("x.luau", b"\x00\x01")])
        .unwrap();
    let meta = Metadata::from_bytes(&image[..image.len() - 5]).unwrap();
    assert_eq!(pairs(&meta), vec![("x.luau".to_string(), vec![0u8, 1])]);
}

#[test]
fn length_field_encodings() {
    assert_eq!(encode_length_field(0), vec![0]);
    assert_eq!(encode_length_field(5), vec![5]);
    assert_eq!(encode_length_field(127), vec![127]);
    assert_eq!(encode_length_field(128), vec![1, 128]);
    assert_eq!(encode_length_field(300), vec![2, 172]);
    assert_eq!(encode_length_field(16384), vec![1, 128, 128]);
    assert_eq!(encode_length_field(MAX_BLOCK_LEN), vec![127, 255, 255]);
    assert_eq!(decode_length_field(&[9, 9, 5]), Some((5, 1)));
    assert_eq!(decode_length_field(&[200, 2, 172]), Some((300, 2)));
    assert_eq!(decode_length_field(&[127, 255, 255]), Some((MAX_BLOCK_LEN, 3)));
    assert_eq!(decode_length_field(&[0x80, 0x80, 0x80]), None);
    assert_eq!(decode_length_field(&[]), None);
    for n in [0usize, 1, 127, 128, 129, 16383, 16384, 16385, 1_000_000, MAX_BLOCK_LEN] {
        let mut b = vec![0xFFu8, 0xFF];
        let field = encode_length_field(n);
        b.extend_from_slice(&field);
        assert_eq!(decode_length_field(&b), Some((n, field.len())));
    }
}

#[test]
fn install_scripts_registers_under_cwd() {
    let normal = |s: &str| PathComponent::Normal(s.to_string());
    let cwd = resolve_path(&vec![PathComponent::RootDir, normal("w")]);
    let mut b: GlobalsContextBuilder<()> = GlobalsContextBuilder::new();
    let entry = install_scripts(
        &mut b,
        &cwd,
        vec![
            (vec![normal("main.luau")], b"main".to_vec()),
            (vec![normal("lib"), PathComponent::ParentDir, normal("lib.luau")], b"lib".to_vec()),
            (vec![PathComponent::RootDir, normal("abs.luau")], b"abs".to_vec()),
        ],
    )
    .unwrap();
    assert_eq!(entry, resolve_path(&vec![PathComponent::RootDir, normal("w"), normal("main.luau")]));
    let ctx = b.build();
    let at = |parts: &[&str]| {
        let mut v = vec![PathComponent::RootDir];
        v.extend(parts.iter().map(|p| normal(p)));
        resolve_path(&v)
    };
    assert_eq!(ctx.get_script(&at(&["w", "main"])).unwrap(), &b"main".to_vec());
    assert_eq!(ctx.get_script(&at(&["w", "lib.luau"])).unwrap(), &b"lib".to_vec());
    assert_eq!(ctx.get_script(&at(&["abs.luau"])).unwrap(), &b"abs".to_vec());
    let mut empty: GlobalsContextBuilder<()> = GlobalsContextBuilder::new();
    assert!(install_scripts(&mut empty, &cwd, Vec::new()).is_none());
}
