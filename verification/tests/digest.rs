use smelt::commands::{Command, Runtime, TargetType};
use smelt::{CommandDefDigest, DigestError, EnvMap, ExecDigest, HexError};

fn command(name: &str, target_type: TargetType, script: &[&str], deps: &[&str]) -> Command {
    Command {
        name: name.to_string(),
        target_type,
        script: script.iter().map(|s| s.to_string()).collect(),
        dependent_files: vec![],
        dependencies: deps.iter().map(|s| s.to_string()).collect(),
        outputs: vec![],
        runtime: Runtime {
            num_cpus: 1,
            max_memory_mb: 16,
            timeout: 10,
            env: EnvMap::new(),
            command_run_dir: None,
        },
    }
}

#[test]
fn def_digest_is_the_sha1_of_the_definition() {
    let a = command("a", TargetType::Build, &["exit 0"], &[]);
    assert_eq!(a.def_digest().to_string(), "3257a0e47ac39d13d12393639c1d5d9fb1efe50d");
    let b = command("b", TargetType::Build, &["echo hi"], &["a"]);
    assert_eq!(b.def_digest().to_string(), "696ade67a5176f836a6261546a1152153e43ead7");
    let c = command("tést", TargetType::Test, &["echo 1", "echo 2"], &["x", "y"]);
    assert_eq!(c.def_digest().to_string(), "f8d1ef210eee897a6831207da48e33a7654962d0");
}

#[test]
fn def_digest_is_the_same_each_time() {
    let a = command("a", TargetType::Test, &["echo 1", "echo 2"], &["x"]);
    assert_eq!(a.def_digest(), a.def_digest());
    assert_eq!(a.def_digest(), a.clone().def_digest());
    let mut other = a.clone();
    other.outputs.push("out.txt".to_string());
    other.dependent_files.push("in.txt".to_string());
    other.runtime.num_cpus = 8;
    other.runtime.env.insert("K".to_string(), "V".to_string());
    assert_eq!(a.def_digest(), other.def_digest());
    assert!(a.def_digest().same_as(&other.def_digest()));
}

#[test]
fn def_digest_changes_with_the_definition() {
    let base = command("a", TargetType::Test, &["echo 1", "echo 2"], &["x", "y"]);
    let changed = [
        command("b", TargetType::Test, &["echo 1", "echo 2"], &["x", "y"]),
        command("a", TargetType::Build, &["echo 1", "echo 2"], &["x", "y"]),
        command("a", TargetType::Stimulus, &["echo 1", "echo 2"], &["x", "y"]),
        command("a", TargetType::Test, &["echo 3", "echo 2"], &["x", "y"]),
        command("a", TargetType::Test, &["echo 1", "echo 3"], &["x", "y"]),
        command("a", TargetType::Test, &["echo 1"], &["x", "y"]),
        command("a", TargetType::Test, &["echo 1", "echo 2"], &["z", "y"]),
        command("a", TargetType::Test, &["echo 1", "echo 2"], &["x", "z"]),
        command("a", TargetType::Test, &["echo 1", "echo 2"], &["x"]),
    ];
    for other in changed.iter() {
        assert_ne!(base.def_digest(), other.def_digest());
        assert!(!base.def_digest().same_as(&other.def_digest()));
    }
}

#[test]
fn def_digest_keeps_the_parts_of_a_definition_apart() {
    let pairs = [
        (
            command("n", TargetType::Test, &["ab", "c"], &[]),
            command("n", TargetType::Test, &["a", "bc"], &[]),
        ),
        (
            command("n", TargetType::Test, &["abc"], &[]),
            command("n", TargetType::Test, &["ab", "c"], &[]),
        ),
        (
            command("abuild", TargetType::Build, &["x"], &[]),
            command("a", TargetType::Build, &["buildx"], &[]),
        ),
        (
            command("n", TargetType::Test, &["c"], &[]),
            command("n", TargetType::Test, &[], &["c"]),
        ),
        (
            command("n", TargetType::Test, &["x"], &["ab", "c"]),
            command("n", TargetType::Test, &["x"], &["a", "bc"]),
        ),
        (
            command("n", TargetType::Test, &[""], &[]),
            command("n", TargetType::Test, &[], &[]),
        ),
        (
            command("n", TargetType::Test, &[], &[""]),
            command("n", TargetType::Test, &[""], &[]),
        ),
        (
            command("ntest", TargetType::Test, &[], &[]),
            command("n", TargetType::Test, &["test"], &[]),
        ),
        (
            command("1:a", TargetType::Test, &[], &[]),
            command("a", TargetType::Test, &[], &[]),
        ),
    ];
    for (one, other) in pairs.iter() {
        assert_ne!(one.def_digest(), other.def_digest());
    }
}

#[test]
fn digest_text_is_lower_case_hex() {
    let mut payload = [0u8; 20];
    for (i, b) in payload.iter_mut().enumerate() {
        *b = (i as u8) * 13 + 5;
    }
    payload[0] = 0x00;
    payload[1] = 0xff;
    payload[2] = 0x0a;
    payload[3] = 0xa0;
    let digest = CommandDefDigest::new(payload);
    assert_eq!(digest.get_payload(), &payload);
    let text = digest.to_string();
    assert_eq!(text, "00ff0aa0394653606d7a8794a1aebbc8d5e2effc");
    assert_eq!(ExecDigest::new(payload).to_string(), text);
}

#[test]
fn digest_round_trips_through_text() {
    let payload = [0xabu8; 20];
    let digest = CommandDefDigest::new(payload);
    assert_eq!(CommandDefDigest::from_str(&digest.to_string()), Ok(digest));
    let exec = ExecDigest::new(payload);
    assert_eq!(ExecDigest::from_str(&exec.to_string()), Ok(exec));
    let upper = digest.to_string().to_uppercase();
    assert_eq!(CommandDefDigest::from_str(&upper), Ok(digest));
    assert_eq!(
        CommandDefDigest::from_str("3257A0e47ac39d13d12393639c1d5d9fb1eFE50D")
            .unwrap()
            .to_string(),
        "3257a0e47ac39d13d12393639c1d5d9fb1efe50d"
    );
}

#[test]
fn digest_text_of_odd_length_is_refused() {
    assert_eq!(
        CommandDefDigest::from_str("abc"),
        Err(DigestError::FromHexError(HexError::OddLength))
    );
    assert_eq!(
        ExecDigest::from_str("g"),
        Err(DigestError::FromHexError(HexError::OddLength))
    );
}

#[test]
fn digest_text_with_a_bad_character_is_refused() {
    assert_eq!(
        CommandDefDigest::from_str("00zz"),
        Err(DigestError::FromHexError(HexError::InvalidHexCharacter { c: 'z', index: 2 }))
    );
    assert_eq!(
        CommandDefDigest::from_str("0g0z"),
        Err(DigestError::FromHexError(HexError::InvalidHexCharacter { c: 'g', index: 1 }))
    );
    assert_eq!(
        ExecDigest::from_str("ab cd1"),
        Err(DigestError::FromHexError(HexError::InvalidHexCharacter { c: ' ', index: 2 }))
    );
}

#[test]
fn digest_text_of_the_wrong_size_is_refused() {
    assert_eq!(
        CommandDefDigest::from_str(""),
        Err(DigestError::WrongPayloadSize { expected: 20, observed: 0 })
    );
    assert_eq!(
        CommandDefDigest::from_str("00ff"),
        Err(DigestError::WrongPayloadSize { expected: 20, observed: 2 })
    );
    let long = "ab".repeat(21);
    assert_eq!(
        ExecDigest::from_str(&long),
        Err(DigestError::WrongPayloadSize { expected: 20, observed: 21 })
    );
}

#[test]
fn digest_errors_have_their_texts() {
    assert_eq!(
        DigestError::FromHexError(HexError::OddLength).to_string(),
        "Could not convert hex string to command digest due to str format"
    );
    assert_eq!(
        DigestError::WrongPayloadSize { expected: 20, observed: 1 }.to_string(),
        "Digest wasn't the right size"
    );
}
