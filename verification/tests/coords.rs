use ourcraft::pos::{chunked, unchunked, BlocPos, ColPos, Pos3d, Realm, CHUNK_S1};

#[test]
fn chunked_splits_with_floor_semantics() {
    assert_eq!(chunked(0), (0, 0));
    assert_eq!(chunked(15), (0, 15));
    assert_eq!(chunked(16), (1, 0));
    assert_eq!(chunked(51), (3, 3));
    assert_eq!(chunked(-1), (-1, 15));
    assert_eq!(chunked(-16), (-1, 0));
    assert_eq!(chunked(-17), (-2, 15));
}

#[test]
fn round_trip_recovers_every_coordinate() {
    let samples: Vec<i32> = vec![
        i32::MIN,
        i32::MIN + 1,
        -1000000,
        -17,
        -16,
        -15,
        -1,
        0,
        1,
        15,
        16,
        51,
        1000000,
        i32::MAX - 1,
        i32::MAX,
    ];
    for x in samples {
        let (c, l) = chunked(x);
        assert!(l < CHUNK_S1);
        assert_eq!(unchunked(c, l), x);
    }
}

#[test]
fn dist_is_zero_symmetric_and_triangular() {
    let a: BlocPos = Pos3d { x: 1, y: 2, z: 3, realm: Realm::Overworld };
    let b: BlocPos = Pos3d { x: -4, y: 7, z: 0, realm: Realm::Overworld };
    let c: BlocPos = Pos3d { x: 10, y: -2, z: 5, realm: Realm::Overworld };
    assert_eq!(a.dist(a), 0);
    assert_eq!(a.dist(b), b.dist(a));
    assert!(a.dist(c) <= a.dist(b) + b.dist(c));
    assert_eq!(a.dist(b), 5);
    assert_eq!(a.dist(c), 9);
}

#[test]
fn prng_is_deterministic_for_identical_inputs() {
    let p: BlocPos = Pos3d { x: -37, y: 12, z: 91, realm: Realm::Overworld };
    let q: BlocPos = Pos3d { x: -37, y: 12, z: 91, realm: Realm::Overworld };
    assert_eq!(p.prng(42), p.prng(42));
    assert_eq!(p.prng(42), q.prng(42));
    assert_ne!(p.prng(42), p.prng(43));
    let r: BlocPos = Pos3d { x: -37, y: 12, z: 92, realm: Realm::Overworld };
    assert_ne!(p.prng(42), r.prng(42));
}

#[test]
fn positions_of_different_realms_are_never_equal() {
    let a: BlocPos = Pos3d { x: 1, y: 2, z: 3, realm: Realm::Overworld };
    let b: BlocPos = Pos3d { x: 1, y: 2, z: 3, realm: Realm::Aether };
    assert_ne!(a, b);
    assert_eq!(a, a);
}

#[test]
fn fine_position_addresses_chunk_and_local_offset() {
    let p: BlocPos = Pos3d { x: 51, y: 5, z: 51, realm: Realm::Overworld };
    let (chunk, local) = p.to_chunked();
    assert_eq!((chunk.x, chunk.y, chunk.z), (3, 0, 3));
    assert_eq!(local, (3, 5, 3));
    assert_eq!(chunk.to_bloc_pos(local), p);

    let n: BlocPos = Pos3d { x: -1, y: 5, z: -20, realm: Realm::Overworld };
    let (nc, nl) = n.to_chunked();
    assert_eq!((nc.x, nc.y, nc.z), (-1, 0, -2));
    assert_eq!(nl, (15, 5, 12));
    assert_eq!(nc.to_bloc_pos(nl), n);
}

#[test]
fn column_of_a_fine_position() {
    let p: BlocPos = Pos3d { x: 51, y: 5, z: -1, realm: Realm::Overworld };
    assert_eq!(p.to_col_pos(), ColPos { x: 3, z: -1, realm: Realm::Overworld });
}

#[test]
fn offset_moves_within_the_same_realm() {
    let p: BlocPos = Pos3d { x: 1, y: 2, z: 3, realm: Realm::Aether };
    let q = p.offset((-2, 10, 0));
    assert_eq!(q, Pos3d { x: -1, y: 12, z: 3, realm: Realm::Aether });
}
