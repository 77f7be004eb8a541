use chaincore::consensus::{hash_pow_header, moderate_difficulty_pow, Consensus, Header, PoW};

fn partial() -> Header<()> {
    Header { parent: 11, height: 3, extrinsics_root: 22, state_root: 33, consensus_digest: () }
}

#[test]
fn seal_finds_a_digest_under_the_threshold() {
    let engine = moderate_difficulty_pow();
    let sealed = engine.seal(&0, partial()).expect("an unbounded search finds a digest");

    assert_eq!(sealed.parent, 11);
    assert_eq!(sealed.height, 3);
    assert_eq!(sealed.extrinsics_root, 22);
    assert_eq!(sealed.state_root, 33);
    assert!(hash_pow_header(&sealed) < u64::MAX / 100);
}

#[test]
fn validate_accepts_a_sealed_header() {
    let engine = moderate_difficulty_pow();
    let sealed = engine.seal(&0, partial()).expect("an unbounded search finds a digest");

    assert!(engine.validate(&0, &sealed));
}

#[test]
fn flipping_a_digest_bit_spoils_the_seal() {
    let engine = moderate_difficulty_pow();
    let sealed = engine.seal(&0, partial()).expect("an unbounded search finds a digest");

    let mut spoiled = sealed;
    spoiled.consensus_digest ^= 1 << 17;
    assert!(!engine.validate(&0, &spoiled));
}

#[test]
fn nothing_validates_at_zero_difficulty() {
    let impossible = PoW::new(0);
    let easy = moderate_difficulty_pow();
    let sealed = easy.seal(&0, partial()).expect("an unbounded search finds a digest");

    assert!(!impossible.validate(&0, &sealed));
}

#[test]
fn seal_is_deterministic() {
    let engine = moderate_difficulty_pow();
    let once = engine.seal(&0, partial());
    let again = engine.seal(&0, partial());
    assert_eq!(once, again);
}
