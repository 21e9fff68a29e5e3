//! Hashing files with a choice of digest algorithms: what a request asks
//! for, and the text the tool shows.

pub mod algorithms;
pub mod digests;

use vstd::prelude::*;
use crate::hasher::algorithms::{
    algorithm_for, all_ascii, ascii_uppercase, strip_separators, uppercase, HashAlgorithm,
};
use crate::text::{chars_of, pad_right, push_char, push_padded_right};

verus! {

/// The options of the `hasher` command.
pub struct HasherArgs {
    /// A file or a directory to hash.
    pub path: Option<String>,
    /// Descend into subdirectories.
    pub recursive: bool,
    /// The name of the digest algorithm.
    pub hash_function: Option<String>,
    /// List the algorithms instead of hashing.
    pub list: bool,
    /// Write the results to this file instead of printing them.
    pub output: Option<String>,
}

/// What the options ask the tool to do.
pub enum HasherRequest {
    /// Show the list of algorithms.
    List,
    /// Stop: the path, the algorithm, or both are missing.
    MissingArguments { missing_path: bool, missing_function: bool },
    /// Stop: the algorithm name stands for no algorithm.
    UnknownFunction { name: String },
    /// Hash what lies at `path` with `algorithm`.
    Hash { path: String, algorithm: HashAlgorithm },
}

/// The request the options make: the list if asked for; otherwise the path
/// and the algorithm must both be given, and the algorithm name known.
pub fn resolve_request(args: &HasherArgs) -> (r: HasherRequest)
    ensures
        args.list ==> r is List,
        !args.list && args.path is None ==> r == (HasherRequest::MissingArguments {
            missing_path: true,
            missing_function: args.hash_function is None,
        }),
        !args.list && args.path is Some && args.hash_function is None ==> r == (HasherRequest::MissingArguments {
            missing_path: false,
            missing_function: true,
        }),
        !args.list && args.path is Some && args.hash_function is Some ==> ({
            let f = args.hash_function->0@;
            match algorithm_for(strip_separators(uppercase(f))) {
                Some(a) => r matches HasherRequest::Hash { path, algorithm }
                    && path@ == args.path->0@ && algorithm == a,
                None => r matches HasherRequest::UnknownFunction { name } && name@ == f,
            }
        }),
{
    if args.list {
        return HasherRequest::List;
    }
    let path = match &args.path {
        Some(p) => p.clone(),
        None => {
            return HasherRequest::MissingArguments {
                missing_path: true,
                missing_function: args.hash_function.is_none(),
            };
        },
    };
    let hash_function = match &args.hash_function {
        Some(f) => f.clone(),
        None => {
            return HasherRequest::MissingArguments {
                missing_path: args.path.is_none(),
                missing_function: true,
            };
        },
    };
    match HashAlgorithm::from_name(hash_function.as_str()) {
        Some(algorithm) => HasherRequest::Hash { path, algorithm },
        None => HasherRequest::UnknownFunction { name: hash_function },
    }
}

/// The algorithms on offer, each with its display name and a description.
pub open spec fn algorithm_table() -> Seq<(Seq<char>, Seq<char>)> {
    seq![
        ("MD5"@, "128-bit hash (legacy, not secure)"@),
        ("SHA-1"@, "160-bit hash (legacy, not secure)"@),
        ("SHA-224"@, "224-bit SHA-2 hash"@),
        ("SHA-256"@, "256-bit SHA-2 hash (recommended)"@),
        ("SHA-384"@, "384-bit SHA-2 hash"@),
        ("SHA-512"@, "512-bit SHA-2 hash"@),
        ("BLAKE2s"@, "256-bit BLAKE2s hash (fast)"@),
        ("BLAKE2b"@, "512-bit BLAKE2b hash (fast)"@),
        ("BLAKE3"@, "256-bit BLAKE3 hash (fastest)"@),
        ("SHA-512/256"@, "256-bit truncated SHA-512"@),
    ]
}

/// The algorithms on offer, each with its display name and a description.
pub fn available_algorithms() -> (r: Vec<(&'static str, &'static str)>)
    ensures
        r@.map_values(|e: (&'static str, &'static str)| (e.0@, e.1@)) == algorithm_table(),
{
    let mut r: Vec<(&'static str, &'static str)> = Vec::new();
    r.push(("MD5", "128-bit hash (legacy, not secure)"));
    r.push(("SHA-1", "160-bit hash (legacy, not secure)"));
    r.push(("SHA-224", "224-bit SHA-2 hash"));
    r.push(("SHA-256", "256-bit SHA-2 hash (recommended)"));
    r.push(("SHA-384", "384-bit SHA-2 hash"));
    r.push(("SHA-512", "512-bit SHA-2 hash"));
    r.push(("BLAKE2s", "256-bit BLAKE2s hash (fast)"));
    r.push(("BLAKE2b", "512-bit BLAKE2b hash (fast)"));
    r.push(("BLAKE3", "256-bit BLAKE3 hash (fastest)"));
    r.push(("SHA-512/256", "256-bit truncated SHA-512"));
    assert(r@.map_values(|e: (&'static str, &'static str)| (e.0@, e.1@)) =~= algorithm_table());
    r
}

/// The listing lines for the first `n` entries: two spaces, the name padded
/// to twelve characters, a space, and the description.
pub open spec fn listing_lines(table: Seq<(Seq<char>, Seq<char>)>, n: int) -> Seq<char>
    decreases n,
{
    if n <= 0 {
        Seq::empty()
    } else {
        listing_lines(table, n - 1) + "  "@ + pad_right(table[n - 1].0, 12) + " "@ + table[n - 1].1
            + seq!['\n']
    }
}

/// The text of `--list`: a heading, an empty line, and one line per algorithm.
pub open spec fn listing_text() -> Seq<char> {
    "Available hash functions:\n\n"@ + listing_lines(algorithm_table(), 10)
}

/// The text `--list` shows.
pub fn algorithm_listing() -> (s: String)
    ensures
        s@ == listing_text(),
{
    let table = available_algorithms();
    let ghost t = table@.map_values(|e: (&'static str, &'static str)| (e.0@, e.1@));
    let mut s = String::new();
    s.append("Available hash functions:\n\n");
    let ghost head = s@;
    let mut i: usize = 0;
    while i < table.len()
        invariant
            i <= table.len(),
            t == table@.map_values(|e: (&'static str, &'static str)| (e.0@, e.1@)),
            t == algorithm_table(),
            s@ == head + listing_lines(t, i as int),
        decreases table.len() - i,
    {
        let (name, description) = table[i];
        s.append("  ");
        push_padded_right(&mut s, &chars_of(name), 12);
        s.append(" ");
        s.append(description);
        push_char(&mut s, '\n');
        i += 1;
    }
    assert(t.len() == 10);
    s
}

/// The message for missing options.
pub open spec fn missing_args_text(missing_path: bool, missing_function: bool) -> Seq<char> {
    "Error: Missing required arguments.\n"@
        + (if missing_path { "  - No path specified.\n"@ } else { Seq::empty() })
        + (if missing_function { "  - No hash function specified.\n"@ } else { Seq::empty() })
        + "\nTry running:\n  brodo-utils hasher . -f SHA-256\n\nUse --help for more information.\nUse --list to see available hash functions.\n"@
}

/// The error message for missing options: which are missing, and how to run the tool.
pub fn missing_args_message(missing_path: bool, missing_function: bool) -> (s: String)
    ensures
        s@ == missing_args_text(missing_path, missing_function),
{
    let mut s = String::new();
    s.append("Error: Missing required arguments.\n");
    if missing_path {
        s.append("  - No path specified.\n");
    }
    if missing_function {
        s.append("  - No hash function specified.\n");
    }
    s.append(
        "\nTry running:\n  brodo-utils hasher . -f SHA-256\n\nUse --help for more information.\nUse --list to see available hash functions.\n",
    );
    s
}

/// The error message for an algorithm name that stands for none.
pub fn unknown_function_message(name: &str) -> (s: String)
    ensures
        s@ == "Error: Unknown hash function '"@ + name@ + "'\nUse --list to see available hash functions.\n"@,
{
    let mut s = String::new();
    s.append("Error: Unknown hash function '");
    s.append(name);
    s.append("'\nUse --list to see available hash functions.\n");
    s
}

/// The result lines for the first `n` results: the digest, ` - `, the file name.
pub open spec fn result_lines(results: Seq<(Seq<char>, Seq<char>)>, n: int) -> Seq<char>
    decreases n,
{
    if n <= 0 {
        Seq::empty()
    } else {
        result_lines(results, n - 1) + results[n - 1].0 + " - "@ + results[n - 1].1 + seq!['\n']
    }
}

proof fn lemma_result_lines_prefix(rs: Seq<(Seq<char>, Seq<char>)>, qs: Seq<(Seq<char>, Seq<char>)>, n: int)
    requires
        0 <= n <= rs.len(),
        n <= qs.len(),
        forall|i: int| 0 <= i < n ==> rs[i] == qs[i],
    ensures
        result_lines(rs, n) == result_lines(qs, n),
    decreases n,
{
    if n > 0 {
        lemma_result_lines_prefix(rs, qs, n - 1);
    }
}

/// The results text has one line per result, in order: the text of two
/// lists of results is the text of the first followed by that of the
/// second, and one result gives `<digest> - <file name>` and a newline.
pub proof fn lemma_result_lines_concat(a: Seq<(Seq<char>, Seq<char>)>, b: Seq<(Seq<char>, Seq<char>)>, r: (Seq<char>, Seq<char>))
    ensures
        result_lines(a + b, (a.len() + b.len()) as int)
            == result_lines(a, a.len() as int) + result_lines(b, b.len() as int),
        result_lines(seq![r], 1) == r.0 + " - "@ + r.1 + seq!['\n'],
    decreases b.len(),
{
    assert(result_lines(seq![r], 0) == Seq::<char>::empty());
    if b.len() == 0 {
        assert(a + b =~= a);
    } else {
        let b1 = b.drop_last();
        lemma_result_lines_concat(a, b1, r);
        lemma_result_lines_prefix(a + b, a + b1, (a.len() + b1.len()) as int);
        lemma_result_lines_prefix(b, b1, b1.len() as int);
        assert((a + b)[(a.len() + b.len() - 1) as int] == b[b.len() - 1]);
    }
}

/// The results as the tool prints them or writes them to a file: one line
/// `<digest> - <file name>` per file.
pub fn render_results(results: &Vec<(String, String)>) -> (s: String)
    ensures
        s@ == result_lines(results@.map_values(|e: (String, String)| (e.0@, e.1@)), results@.len() as int),
{
    let ghost rs = results@.map_values(|e: (String, String)| (e.0@, e.1@));
    let mut s = String::new();
    let mut i: usize = 0;
    while i < results.len()
        invariant
            i <= results.len(),
            rs == results@.map_values(|e: (String, String)| (e.0@, e.1@)),
            s@ == result_lines(rs, i as int),
        decreases results.len() - i,
    {
        s.append(results[i].0.as_str());
        s.append(" - ");
        s.append(results[i].1.as_str());
        push_char(&mut s, '\n');
        i += 1;
    }
    s
}

/// `s` with every backslash turned into a slash.
pub open spec fn forward_slashes(s: Seq<char>) -> Seq<char> {
    s.map_values(|c: char| if c == '\\' { '/' } else { c })
}

/// A relative path with `/` as its only separator, as `replace('\\', "/")` makes it.
pub fn normalize_separators(path: &str) -> (r: String)
    ensures
        r@ == forward_slashes(path@),
{
    let cs = chars_of(path);
    let mut r = String::new();
    let mut i: usize = 0;
    while i < cs.len()
        invariant
            i <= cs.len(),
            r@ == forward_slashes(cs@.take(i as int)),
        decreases cs.len() - i,
    {
        let c = cs[i];
        push_char(&mut r, if c == '\\' { '/' } else { c });
        i += 1;
        assert(forward_slashes(cs@.take(i as int)) =~= forward_slashes(cs@.take(i - 1)).push(
            if c == '\\' { '/' } else { c },
        ));
    }
    assert(cs@.take(cs.len() as int) == cs@);
    r
}


/// The algorithm that row `i` of the listing names.
pub open spec fn listed_algorithm(i: int) -> HashAlgorithm {
    if i == 0 {
        HashAlgorithm::Md5
    } else if i == 1 {
        HashAlgorithm::Sha1
    } else if i == 2 {
        HashAlgorithm::Sha224
    } else if i == 3 {
        HashAlgorithm::Sha256
    } else if i == 4 {
        HashAlgorithm::Sha384
    } else if i == 5 {
        HashAlgorithm::Sha512
    } else if i == 6 {
        HashAlgorithm::Blake2s
    } else if i == 7 {
        HashAlgorithm::Blake2b
    } else if i == 8 {
        HashAlgorithm::Blake3
    } else {
        HashAlgorithm::Sha512_256
    }
}

/// A name resolves only through one of the spellings the tool knows, and
/// each spelling to its own algorithm: `MD5`, `SHA1`, `SHA224`, `SHA256`,
/// `SHA384`, `SHA512`, `SHA512256` or `SHA512/256`, `BLAKE2S` or
/// `BLAKE2S256`, `BLAKE2B` or `BLAKE2B512`, `BLAKE3`; every other name
/// resolves to nothing.
pub proof fn lemma_known_spellings_only(n: Seq<char>)
    ensures
        algorithm_for(n) == Some(HashAlgorithm::Md5) <==> n == "MD5"@,
        algorithm_for(n) == Some(HashAlgorithm::Sha1) <==> n == "SHA1"@,
        algorithm_for(n) == Some(HashAlgorithm::Sha224) <==> n == "SHA224"@,
        algorithm_for(n) == Some(HashAlgorithm::Sha256) <==> n == "SHA256"@,
        algorithm_for(n) == Some(HashAlgorithm::Sha384) <==> n == "SHA384"@,
        algorithm_for(n) == Some(HashAlgorithm::Sha512) <==> n == "SHA512"@,
        algorithm_for(n) == Some(HashAlgorithm::Sha512_256) <==> (n == "SHA512256"@ || n == "SHA512/256"@),
        algorithm_for(n) == Some(HashAlgorithm::Blake2s) <==> (n == "BLAKE2S"@ || n == "BLAKE2S256"@),
        algorithm_for(n) == Some(HashAlgorithm::Blake2b) <==> (n == "BLAKE2B"@ || n == "BLAKE2B512"@),
        algorithm_for(n) == Some(HashAlgorithm::Blake3) <==> n == "BLAKE3"@,
        algorithm_for(n) is None <==> !(n == "MD5"@ || n == "SHA1"@ || n == "SHA224"@ || n == "SHA256"@
            || n == "SHA384"@ || n == "SHA512"@ || n == "SHA512256"@ || n == "SHA512/256"@
            || n == "BLAKE2S"@ || n == "BLAKE2S256"@ || n == "BLAKE2B"@ || n == "BLAKE2B512"@
            || n == "BLAKE3"@),
{
    lemma_known_names_differ();
}

/// The names `algorithm_for` knows, told apart by their length or by one character.
proof fn lemma_known_names_differ()
    ensures
        "MD5"@.len() == 3,
        "MD5"@[0] == 'M',
        "MD5"@[1] == 'D',
        "MD5"@[2] == '5',
        "SHA1"@.len() == 4,
        "SHA1"@[0] == 'S',
        "SHA1"@[1] == 'H',
        "SHA1"@[2] == 'A',
        "SHA1"@[3] == '1',
        "SHA224"@.len() == 6,
        "SHA224"@[0] == 'S',
        "SHA224"@[1] == 'H',
        "SHA224"@[2] == 'A',
        "SHA224"@[3] == '2',
        "SHA224"@[4] == '2',
        "SHA224"@[5] == '4',
        "SHA256"@.len() == 6,
        "SHA256"@[0] == 'S',
        "SHA256"@[1] == 'H',
        "SHA256"@[2] == 'A',
        "SHA256"@[3] == '2',
        "SHA256"@[4] == '5',
        "SHA256"@[5] == '6',
        "SHA384"@.len() == 6,
        "SHA384"@[0] == 'S',
        "SHA384"@[1] == 'H',
        "SHA384"@[2] == 'A',
        "SHA384"@[3] == '3',
        "SHA384"@[4] == '8',
        "SHA384"@[5] == '4',
        "SHA512"@.len() == 6,
        "SHA512"@[0] == 'S',
        "SHA512"@[1] == 'H',
        "SHA512"@[2] == 'A',
        "SHA512"@[3] == '5',
        "SHA512"@[4] == '1',
        "SHA512"@[5] == '2',
        "SHA512256"@.len() == 9,
        "SHA512256"@[0] == 'S',
        "SHA512256"@[1] == 'H',
        "SHA512256"@[2] == 'A',
        "SHA512256"@[3] == '5',
        "SHA512256"@[4] == '1',
        "SHA512256"@[5] == '2',
        "SHA512256"@[6] == '2',
        "SHA512256"@[7] == '5',
        "SHA512256"@[8] == '6',
        "SHA512/256"@.len() == 10,
        "SHA512/256"@[0] == 'S',
        "SHA512/256"@[1] == 'H',
        "SHA512/256"@[2] == 'A',
        "SHA512/256"@[3] == '5',
        "SHA512/256"@[4] == '1',
        "SHA512/256"@[5] == '2',
        "SHA512/256"@[6] == '/',
        "SHA512/256"@[7] == '2',
        "SHA512/256"@[8] == '5',
        "SHA512/256"@[9] == '6',
        "BLAKE2S"@.len() == 7,
        "BLAKE2S"@[0] == 'B',
        "BLAKE2S"@[1] == 'L',
        "BLAKE2S"@[2] == 'A',
        "BLAKE2S"@[3] == 'K',
        "BLAKE2S"@[4] == 'E',
        "BLAKE2S"@[5] == '2',
        "BLAKE2S"@[6] == 'S',
        "BLAKE2S256"@.len() == 10,
        "BLAKE2S256"@[0] == 'B',
        "BLAKE2S256"@[1] == 'L',
        "BLAKE2S256"@[2] == 'A',
        "BLAKE2S256"@[3] == 'K',
        "BLAKE2S256"@[4] == 'E',
        "BLAKE2S256"@[5] == '2',
        "BLAKE2S256"@[6] == 'S',
        "BLAKE2S256"@[7] == '2',
        "BLAKE2S256"@[8] == '5',
        "BLAKE2S256"@[9] == '6',
        "BLAKE2B"@.len() == 7,
        "BLAKE2B"@[0] == 'B',
        "BLAKE2B"@[1] == 'L',
        "BLAKE2B"@[2] == 'A',
        "BLAKE2B"@[3] == 'K',
        "BLAKE2B"@[4] == 'E',
        "BLAKE2B"@[5] == '2',
        "BLAKE2B"@[6] == 'B',
        "BLAKE2B512"@.len() == 10,
        "BLAKE2B512"@[0] == 'B',
        "BLAKE2B512"@[1] == 'L',
        "BLAKE2B512"@[2] == 'A',
        "BLAKE2B512"@[3] == 'K',
        "BLAKE2B512"@[4] == 'E',
        "BLAKE2B512"@[5] == '2',
        "BLAKE2B512"@[6] == 'B',
        "BLAKE2B512"@[7] == '5',
        "BLAKE2B512"@[8] == '1',
        "BLAKE2B512"@[9] == '2',
        "BLAKE3"@.len() == 6,
        "BLAKE3"@[0] == 'B',
        "BLAKE3"@[1] == 'L',
        "BLAKE3"@[2] == 'A',
        "BLAKE3"@[3] == 'K',
        "BLAKE3"@[4] == 'E',
        "BLAKE3"@[5] == '3',
{
    reveal_strlit("MD5");
    reveal_strlit("SHA1");
    reveal_strlit("SHA224");
    reveal_strlit("SHA256");
    reveal_strlit("SHA384");
    reveal_strlit("SHA512");
    reveal_strlit("SHA512256");
    reveal_strlit("SHA512/256");
    reveal_strlit("BLAKE2S");
    reveal_strlit("BLAKE2S256");
    reveal_strlit("BLAKE2B");
    reveal_strlit("BLAKE2B512");
    reveal_strlit("BLAKE3");
}

/// Every name that `--list` shows resolves to the algorithm of its row. The
/// names are ASCII, so by its contract `from_name` gives this algorithm for
/// each of them.
pub proof fn lemma_listed_names_resolve(i: int)
    requires
        0 <= i < 10,
    ensures
        all_ascii(algorithm_table()[i].0),
        algorithm_for(strip_separators(ascii_uppercase(algorithm_table()[i].0))) == Some(listed_algorithm(i)),
{
    lemma_known_names_differ();
    let name = algorithm_table()[i].0;
    if i == 0 {
        reveal_strlit("MD5");
        assert(name == "MD5"@);
        assert(all_ascii(name));
        reveal_with_fuel(strip_separators, 4);
        assert(strip_separators(ascii_uppercase(name)) =~= "MD5"@);
    } else if i == 1 {
        reveal_strlit("SHA-1");
        assert(name == "SHA-1"@);
        assert(all_ascii(name));
        reveal_with_fuel(strip_separators, 6);
        assert(strip_separators(ascii_uppercase(name)) =~= "SHA1"@);
    } else if i == 2 {
        reveal_strlit("SHA-224");
        assert(name == "SHA-224"@);
        assert(all_ascii(name));
        reveal_with_fuel(strip_separators, 8);
        assert(strip_separators(ascii_uppercase(name)) =~= "SHA224"@);
    } else if i == 3 {
        reveal_strlit("SHA-256");
        assert(name == "SHA-256"@);
        assert(all_ascii(name));
        reveal_with_fuel(strip_separators, 8);
        assert(strip_separators(ascii_uppercase(name)) =~= "SHA256"@);
    } else if i == 4 {
        reveal_strlit("SHA-384");
        assert(name == "SHA-384"@);
        assert(all_ascii(name));
        reveal_with_fuel(strip_separators, 8);
        assert(strip_separators(ascii_uppercase(name)) =~= "SHA384"@);
    } else if i == 5 {
        reveal_strlit("SHA-512");
        assert(name == "SHA-512"@);
        assert(all_ascii(name));
        reveal_with_fuel(strip_separators, 8);
        assert(strip_separators(ascii_uppercase(name)) =~= "SHA512"@);
    } else if i == 6 {
        reveal_strlit("BLAKE2s");
        assert(name == "BLAKE2s"@);
        assert(all_ascii(name));
        reveal_with_fuel(strip_separators, 8);
        assert(strip_separators(ascii_uppercase(name)) =~= "BLAKE2S"@);
    } else if i == 7 {
        reveal_strlit("BLAKE2b");
        assert(name == "BLAKE2b"@);
        assert(all_ascii(name));
        reveal_with_fuel(strip_separators, 8);
        assert(strip_separators(ascii_uppercase(name)) =~= "BLAKE2B"@);
    } else if i == 8 {
        reveal_strlit("BLAKE3");
        assert(name == "BLAKE3"@);
        assert(all_ascii(name));
        reveal_with_fuel(strip_separators, 7);
        assert(strip_separators(ascii_uppercase(name)) =~= "BLAKE3"@);
    } else {
        reveal_strlit("SHA-512/256");
        assert(name == "SHA-512/256"@);
        assert(all_ascii(name));
        reveal_with_fuel(strip_separators, 12);
        assert(strip_separators(ascii_uppercase(name)) =~= "SHA512/256"@);
    }
}

} // verus!
