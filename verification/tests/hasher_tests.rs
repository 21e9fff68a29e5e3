use brodo_utils::hasher::algorithms::{to_lower_hex, uppercase_chars, HashAlgorithm};
use brodo_utils::hasher::{
    algorithm_listing, available_algorithms, missing_args_message, normalize_separators,
    render_results, resolve_request, unknown_function_message, HasherArgs, HasherRequest,
};
use digest::Digest;

const ALL: [HashAlgorithm; 10] = [
    HashAlgorithm::Md5,
    HashAlgorithm::Sha1,
    HashAlgorithm::Sha224,
    HashAlgorithm::Sha256,
    HashAlgorithm::Sha384,
    HashAlgorithm::Sha512,
    HashAlgorithm::Sha512_256,
    HashAlgorithm::Blake2s,
    HashAlgorithm::Blake2b,
    HashAlgorithm::Blake3,
];

fn hash_hex(alg: HashAlgorithm, data: &[u8]) -> String {
    let mut h = alg.create_hasher();
    h.update(data);
    h.finalize_hex()
}

/// The digest as the crates compute it and `{:x}` prints it.
fn reference_hex(alg: HashAlgorithm, data: &[u8]) -> String {
    match alg {
        HashAlgorithm::Md5 => format!("{:x}", md5::Md5::digest(data)),
        HashAlgorithm::Sha1 => format!("{:x}", sha1::Sha1::digest(data)),
        HashAlgorithm::Sha224 => format!("{:x}", sha2::Sha224::digest(data)),
        HashAlgorithm::Sha256 => format!("{:x}", sha2::Sha256::digest(data)),
        HashAlgorithm::Sha384 => format!("{:x}", sha2::Sha384::digest(data)),
        HashAlgorithm::Sha512 => format!("{:x}", sha2::Sha512::digest(data)),
        HashAlgorithm::Sha512_256 => format!("{:x}", sha2::Sha512_256::digest(data)),
        HashAlgorithm::Blake2s => format!("{:x}", blake2::Blake2s256::digest(data)),
        HashAlgorithm::Blake2b => format!("{:x}", blake2::Blake2b512::digest(data)),
        HashAlgorithm::Blake3 => blake3::hash(data).to_hex().to_string(),
    }
}

#[test]
fn from_name_accepts_canonical_names() {
    assert_eq!(HashAlgorithm::from_name("MD5"), Some(HashAlgorithm::Md5));
    assert_eq!(HashAlgorithm::from_name("SHA1"), Some(HashAlgorithm::Sha1));
    assert_eq!(HashAlgorithm::from_name("SHA224"), Some(HashAlgorithm::Sha224));
    assert_eq!(HashAlgorithm::from_name("SHA256"), Some(HashAlgorithm::Sha256));
    assert_eq!(HashAlgorithm::from_name("SHA384"), Some(HashAlgorithm::Sha384));
    assert_eq!(HashAlgorithm::from_name("SHA512"), Some(HashAlgorithm::Sha512));
    assert_eq!(HashAlgorithm::from_name("SHA512256"), Some(HashAlgorithm::Sha512_256));
    assert_eq!(HashAlgorithm::from_name("BLAKE2S"), Some(HashAlgorithm::Blake2s));
    assert_eq!(HashAlgorithm::from_name("BLAKE2S256"), Some(HashAlgorithm::Blake2s));
    assert_eq!(HashAlgorithm::from_name("BLAKE2B"), Some(HashAlgorithm::Blake2b));
    assert_eq!(HashAlgorithm::from_name("BLAKE2B512"), Some(HashAlgorithm::Blake2b));
    assert_eq!(HashAlgorithm::from_name("BLAKE3"), Some(HashAlgorithm::Blake3));
}

#[test]
fn from_name_ignores_case_and_separators() {
    assert_eq!(HashAlgorithm::from_name("sha-256"), Some(HashAlgorithm::Sha256));
    assert_eq!(HashAlgorithm::from_name("Sha_256"), Some(HashAlgorithm::Sha256));
    assert_eq!(HashAlgorithm::from_name("s-h_a-2_5-6"), Some(HashAlgorithm::Sha256));
    assert_eq!(HashAlgorithm::from_name("md5"), Some(HashAlgorithm::Md5));
    assert_eq!(HashAlgorithm::from_name("sha512_256"), Some(HashAlgorithm::Sha512_256));
    assert_eq!(HashAlgorithm::from_name("sha-512-256"), Some(HashAlgorithm::Sha512_256));
    assert_eq!(HashAlgorithm::from_name("blake2s-256"), Some(HashAlgorithm::Blake2s));
    assert_eq!(HashAlgorithm::from_name("Blake2b_512"), Some(HashAlgorithm::Blake2b));
    assert_eq!(HashAlgorithm::from_name("blake3"), Some(HashAlgorithm::Blake3));
    assert_eq!(HashAlgorithm::from_name("--md5__"), Some(HashAlgorithm::Md5));
}

#[test]
fn from_name_rejects_unknown_names() {
    assert_eq!(HashAlgorithm::from_name(""), None);
    assert_eq!(HashAlgorithm::from_name("sha"), None);
    assert_eq!(HashAlgorithm::from_name("sha 256"), None);
    assert_eq!(HashAlgorithm::from_name("crc32"), None);
    assert_eq!(HashAlgorithm::from_name("blake2"), None);
    // The slash is not a separator that is ignored.
    assert_eq!(HashAlgorithm::from_name("SHA-256/512"), None);
    assert_eq!(HashAlgorithm::from_name("SHA/512256"), None);
}

#[test]
fn from_name_uses_unicode_upper_case() {
    // U+017F LATIN SMALL LETTER LONG S upper-cases to 'S'.
    assert_eq!(HashAlgorithm::from_name("\u{17f}ha256"), Some(HashAlgorithm::Sha256));
    // U+0131 LATIN SMALL LETTER DOTLESS I upper-cases to 'I'.
    assert_eq!(HashAlgorithm::from_name("\u{131}"), None);
}

#[test]
fn from_uppercased_matches_upper_case_names_only() {
    assert_eq!(HashAlgorithm::from_uppercased("SHA-256"), Some(HashAlgorithm::Sha256));
    assert_eq!(HashAlgorithm::from_uppercased("sha-256"), None);
}

#[test]
fn slashed_sha512_256_name_resolves() {
    assert_eq!(HashAlgorithm::from_name("SHA-512/256"), Some(HashAlgorithm::Sha512_256));
    assert_eq!(HashAlgorithm::from_name("sha512/256"), Some(HashAlgorithm::Sha512_256));
    assert_eq!(HashAlgorithm::from_name("Sha_512/256"), Some(HashAlgorithm::Sha512_256));
}

#[test]
fn listed_names_resolve() {
    let table = available_algorithms();
    assert_eq!(table.len(), 10);
    let expected = [
        Some(HashAlgorithm::Md5),
        Some(HashAlgorithm::Sha1),
        Some(HashAlgorithm::Sha224),
        Some(HashAlgorithm::Sha256),
        Some(HashAlgorithm::Sha384),
        Some(HashAlgorithm::Sha512),
        Some(HashAlgorithm::Blake2s),
        Some(HashAlgorithm::Blake2b),
        Some(HashAlgorithm::Blake3),
        Some(HashAlgorithm::Sha512_256),
    ];
    for (i, (name, _)) in table.iter().enumerate() {
        assert_eq!(HashAlgorithm::from_name(name), expected[i], "{}", name);
    }
}

#[test]
fn digests_of_abc() {
    let abc = b"abc";
    assert_eq!(hash_hex(HashAlgorithm::Md5, abc), "900150983cd24fb0d6963f7d28e17f72");
    assert_eq!(hash_hex(HashAlgorithm::Sha1, abc), "a9993e364706816aba3e25717850c26c9cd0d89d");
    assert_eq!(
        hash_hex(HashAlgorithm::Sha256, abc),
        "ba7816bf8f01cfea414140de5dae2223b00361a396177a9cb410ff61f20015ad"
    );
    assert_eq!(
        hash_hex(HashAlgorithm::Sha224, abc),
        "23097d223405d8228642a477bda255b32aadbce4bda0b3f7e36c9da7"
    );
}

#[test]
fn digests_match_the_crates() {
    let inputs: [&[u8]; 4] = [b"", b"abc", b"The quick brown fox jumps over the lazy dog", &[0u8, 255, 7, 128]];
    for alg in ALL {
        for data in inputs.iter() {
            assert_eq!(hash_hex(alg, data), reference_hex(alg, data), "{:?}", alg);
        }
    }
}

#[test]
fn digest_lengths() {
    let lens = [32, 40, 56, 64, 96, 128, 64, 64, 128, 64];
    for (alg, len) in ALL.iter().zip(lens.iter()) {
        let hex = hash_hex(*alg, b"x");
        assert_eq!(hex.len(), *len, "{:?}", alg);
        assert!(hex.chars().all(|c| c.is_ascii_digit() || ('a'..='f').contains(&c)));
    }
}

#[test]
fn updates_in_pieces_give_the_digest_of_the_whole() {
    let data: Vec<u8> = (0..20000u32).map(|i| (i * 7 + 3) as u8).collect();
    for alg in ALL {
        let mut h = alg.create_hasher();
        for chunk in data.chunks(8192) {
            h.update(chunk);
        }
        h.update(&[]);
        assert_eq!(h.finalize_hex(), hash_hex(alg, &data), "{:?}", alg);
        let mut h2 = alg.create_hasher();
        h2.update(b"ab");
        h2.update(b"c");
        assert_eq!(h2.finalize_hex(), hash_hex(alg, b"abc"));
    }
}

#[test]
fn empty_input_digest() {
    assert_eq!(
        alg_empty(HashAlgorithm::Sha256),
        "e3b0c44298fc1c149afbf4c8996fb92427ae41e4649b934ca495991b7852b855"
    );
    assert_eq!(alg_empty(HashAlgorithm::Md5), "d41d8cd98f00b204e9800998ecf8427e");
}

fn alg_empty(alg: HashAlgorithm) -> String {
    alg.create_hasher().finalize_hex()
}

#[test]
fn lower_hex_of_bytes() {
    assert_eq!(to_lower_hex(&vec![10, 20, 30]), "0a141e");
    assert_eq!(to_lower_hex(&vec![]), "");
    assert_eq!(to_lower_hex(&vec![0, 255, 171]), "00ffab");
}

fn args(path: Option<&str>, function: Option<&str>, list: bool) -> HasherArgs {
    HasherArgs {
        path: path.map(|s| s.to_string()),
        recursive: false,
        hash_function: function.map(|s| s.to_string()),
        list,
        output: None,
    }
}

#[test]
fn resolve_request_list_wins() {
    assert!(matches!(resolve_request(&args(None, None, true)), HasherRequest::List));
    assert!(matches!(resolve_request(&args(Some("."), Some("bogus"), true)), HasherRequest::List));
}

#[test]
fn resolve_request_missing_arguments() {
    assert!(matches!(
        resolve_request(&args(None, None, false)),
        HasherRequest::MissingArguments { missing_path: true, missing_function: true }
    ));
    assert!(matches!(
        resolve_request(&args(None, Some("md5"), false)),
        HasherRequest::MissingArguments { missing_path: true, missing_function: false }
    ));
    assert!(matches!(
        resolve_request(&args(Some("."), None, false)),
        HasherRequest::MissingArguments { missing_path: false, missing_function: true }
    ));
}

#[test]
fn resolve_request_unknown_and_known_function() {
    match resolve_request(&args(Some("dir"), Some("whirlpool"), false)) {
        HasherRequest::UnknownFunction { name } => assert_eq!(name, "whirlpool"),
        _ => panic!("expected an unknown function"),
    }
    match resolve_request(&args(Some("dir"), Some("sha-1"), false)) {
        HasherRequest::Hash { path, algorithm } => {
            assert_eq!(path, "dir");
            assert_eq!(algorithm, HashAlgorithm::Sha1);
        }
        _ => panic!("expected a hash request"),
    }
}

#[test]
fn listing_text() {
    let expected = [
        "Available hash functions:\n\n",
        "  MD5          128-bit hash (legacy, not secure)\n",
        "  SHA-1        160-bit hash (legacy, not secure)\n",
        "  SHA-224      224-bit SHA-2 hash\n",
        "  SHA-256      256-bit SHA-2 hash (recommended)\n",
        "  SHA-384      384-bit SHA-2 hash\n",
        "  SHA-512      512-bit SHA-2 hash\n",
        "  BLAKE2s      256-bit BLAKE2s hash (fast)\n",
        "  BLAKE2b      512-bit BLAKE2b hash (fast)\n",
        "  BLAKE3       256-bit BLAKE3 hash (fastest)\n",
        "  SHA-512/256  256-bit truncated SHA-512\n",
    ]
    .concat();
    assert_eq!(algorithm_listing(), expected);
    let mut by_format = String::from("Available hash functions:\n\n");
    for (name, description) in available_algorithms() {
        by_format.push_str(&format!("  {:<12} {}\n", name, description));
    }
    assert_eq!(algorithm_listing(), by_format);
}

#[test]
fn missing_arguments_messages() {
    let tail = "\nTry running:\n  brodo-utils hasher . -f SHA-256\n\nUse --help for more information.\nUse --list to see available hash functions.\n";
    assert_eq!(
        missing_args_message(true, true),
        format!("Error: Missing required arguments.\n  - No path specified.\n  - No hash function specified.\n{}", tail)
    );
    assert_eq!(
        missing_args_message(true, false),
        format!("Error: Missing required arguments.\n  - No path specified.\n{}", tail)
    );
    assert_eq!(
        missing_args_message(false, true),
        format!("Error: Missing required arguments.\n  - No hash function specified.\n{}", tail)
    );
}

#[test]
fn unknown_function_text() {
    assert_eq!(
        unknown_function_message("crc"),
        "Error: Unknown hash function 'crc'\nUse --list to see available hash functions.\n"
    );
}

#[test]
fn result_lines() {
    let results = vec![
        ("abc".to_string(), "a.txt".to_string()),
        ("def".to_string(), "sub/b.txt".to_string()),
    ];
    assert_eq!(render_results(&results), "abc - a.txt\ndef - sub/b.txt\n");
    assert_eq!(render_results(&vec![]), "");
}

#[test]
fn backslashes_become_slashes() {
    assert_eq!(normalize_separators("a\\b\\c.txt"), "a/b/c.txt");
    assert_eq!(normalize_separators("plain/path"), "plain/path");
    assert_eq!(normalize_separators(""), "");
    assert_eq!(normalize_separators("é\\ü"), "é/ü");
}

#[test]
fn ascii_case_and_separators_do_not_matter() {
    for (name, _) in available_algorithms() {
        let expected = HashAlgorithm::from_name(name);
        assert_eq!(HashAlgorithm::from_name(&name.to_ascii_lowercase()), expected);
        assert_eq!(HashAlgorithm::from_name(&name.to_ascii_uppercase()), expected);
        for i in 0..=name.len() {
            for sep in ["-", "_"] {
                let with = format!("{}{}{}", &name[..i], sep, &name[i..]);
                assert_eq!(HashAlgorithm::from_name(&with), expected, "{}", with);
            }
        }
    }
}

#[test]
fn case_and_separators_do_not_matter_beyond_ascii() {
    let names = ["\u{17f}ha256", "\u{17f}HA-256", "bl\u{e4}ke3", "stra\u{df}e", "\u{1c5}md5", "\u{fb00}"];
    for name in names {
        let expected = HashAlgorithm::from_name(name);
        assert_eq!(HashAlgorithm::from_name(&name.to_ascii_lowercase()), expected, "{}", name);
        assert_eq!(HashAlgorithm::from_name(&name.to_ascii_uppercase()), expected, "{}", name);
        let chars: Vec<char> = name.chars().collect();
        for i in 0..=chars.len() {
            let head: String = chars[..i].iter().collect();
            let tail: String = chars[i..].iter().collect();
            let with = format!("_{}--{}_", head, tail);
            assert_eq!(HashAlgorithm::from_name(&with), expected, "{}", with);
        }
    }
    assert_eq!(HashAlgorithm::from_name("__\u{17f}-h_a-2-5-6--"), Some(HashAlgorithm::Sha256));
}

#[test]
fn upper_case_of_characters() {
    let s: Vec<char> = "stra\u{df}e-\u{17f}ha_256 \u{1c6}".chars().collect();
    let expected: Vec<char> = "STRASSE-SHA_256 \u{1c4}".chars().collect();
    assert_eq!(uppercase_chars(&s), expected);
    let t: Vec<char> = "Md5 blake2b".chars().collect();
    let u: Vec<char> = "MD5 BLAKE2B".chars().collect();
    assert_eq!(uppercase_chars(&t), u);
}
