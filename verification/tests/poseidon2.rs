use poseidon2_bn256::{
    decode_f, encode_f, merkle_branch, merkle_branch_internal, merkle_tree, merkle_tree_internal,
    poseidon2_bn256_hash, poseidon2_bn256_internal, tree_node_hash, Poseidon2Error,
};

const H_3_4: &str = "17380952042446168291178743041044530828369674063485643659763567652647121881611";
const H_1_2: &str = "1594597865669602199208529098208508950092942746041644072252494753744672355203";
const ROOT_DEPTH2: &str =
    "18145963038378645805713504092197197549342394757429773105454438568839292866655";
const PRIME: &str = "21888242871839275222246405745257275088548364400416034343698204186575808495617";

fn strings(xs: &[&str]) -> Vec<String> {
    xs.iter().map(|x| x.to_string()).collect()
}

#[test]
fn poseidon2test() {
    // H(3, 4) = 17380952042446168291178743041044530828369674063485643659763567652647121881611
    let v: Vec<_> = vec!["3", "4"].into_iter().map(|x| String::from(x)).collect();
    assert_eq!(H_3_4, poseidon2_bn256_hash(v).unwrap(),);
}

#[test]
fn lib_poseidon2test() {
    // H(3, 4) = 17380952042446168291178743041044530828369674063485643659763567652647121881611
    let v: Vec<_> = vec!["3", "4"].into_iter().map(|x| String::from(x)).collect();
    assert_eq!(H_3_4, poseidon2_bn256_hash(v).unwrap(),);
}

#[test]
fn hash_of_zero() {
    assert_eq!(
        poseidon2_bn256_hash(strings(&["0"])).unwrap(),
        "17668610518173883319035856328661308815933580113901672897605691629848497347345",
    );
}

#[test]
fn hash_of_one() {
    assert_eq!(
        poseidon2_bn256_hash(strings(&["1"])).unwrap(),
        "10190015755989328289879378487807721086446093622177241109507523918927702106995",
    );
}

#[test]
fn hash_is_deterministic() {
    let a = poseidon2_bn256_hash(strings(&["7", "11", "13", "17", "19"])).unwrap();
    let b = poseidon2_bn256_hash(strings(&["7", "11", "13", "17", "19"])).unwrap();
    assert_eq!(a, b);
}

#[test]
fn hash_rejects_bad_strings() {
    assert_eq!(
        poseidon2_bn256_hash(strings(&["1", "2x"])),
        Err(Poseidon2Error::ParseError)
    );
    assert_eq!(
        poseidon2_bn256_hash(strings(&[""])),
        Err(Poseidon2Error::ParseError)
    );
}

#[test]
fn decode_rejects_non_decimal() {
    assert_eq!(decode_f(String::new()), Err(Poseidon2Error::ParseError));
    assert_eq!(decode_f("+1".to_string()), Err(Poseidon2Error::ParseError));
    assert_eq!(decode_f("-1".to_string()), Err(Poseidon2Error::ParseError));
    assert_eq!(decode_f(" 1".to_string()), Err(Poseidon2Error::ParseError));
    assert_eq!(decode_f("0x10".to_string()), Err(Poseidon2Error::ParseError));
}

#[test]
fn codec_round_trip() {
    for s in ["0", "1", "42", "18446744073709551616", H_3_4, H_1_2] {
        let f = decode_f(s.to_string()).unwrap();
        assert_eq!(encode_f(f), s);
    }
}

#[test]
fn decode_reduces_oversized_values() {
    // The prime itself reduces to zero; one above it to one.
    let p = decode_f(PRIME.to_string()).unwrap();
    assert_eq!(encode_f(p), "0");
    let mut p_plus_one = PRIME.to_string();
    p_plus_one.replace_range(p_plus_one.len() - 1.., "8");
    let f = decode_f(p_plus_one).unwrap();
    assert_eq!(encode_f(f), "1");
}

#[test]
fn merkle_tree_depth_two() {
    let out = merkle_tree(2, strings(&["1", "2", "3", "4"]), "1000000".to_string()).unwrap();
    let expected = strings(&[
        "0", // not used, always 0
        ROOT_DEPTH2, // root = H(H(1, 2), H(3, 4))
        H_1_2, // H(1, 2)
        H_3_4, // H(3, 4)
        "1", // the rest are the leaves with values in them
        "2",
        "3",
        "4",
    ]);
    assert_eq!(out, expected);
}

#[test]
fn merkle_tree_pads_with_default() {
    let out = merkle_tree(1, strings(&["5"]), "6".to_string()).unwrap();
    assert_eq!(out.len(), 4);
    assert_eq!(out[2], "5");
    assert_eq!(out[3], "6");
    let pair = poseidon2_bn256_hash(strings(&["5", "6"])).unwrap();
    assert_eq!(out[1], pair);
}

#[test]
fn merkle_tree_depth_zero() {
    let out = merkle_tree(0, strings(&["9"]), "0".to_string()).unwrap();
    assert_eq!(out, strings(&["0", "9"]));
}

#[test]
fn merkle_tree_ignores_excess_values() {
    let a = merkle_tree(1, strings(&["1", "2", "3"]), "0".to_string()).unwrap();
    let b = merkle_tree(1, strings(&["1", "2"]), "0".to_string()).unwrap();
    assert_eq!(a, b);
}

#[test]
fn merkle_tree_rejects_bad_default() {
    assert_eq!(
        merkle_tree(1, strings(&["1"]), "nope".to_string()),
        Err(Poseidon2Error::ParseError)
    );
}

#[test]
fn merkle_branch_single_level() {
    // direction 0: the sibling is the left child, so the leaf 2 stands on
    // the right and the parent is H(1, 2).
    let out = merkle_branch("2".to_string(), vec![0], strings(&["1"])).unwrap();
    assert_eq!(out, strings(&[H_1_2]));
}

#[test]
fn merkle_branch_reconstructs_root() {
    // Leaf slot 0 of the depth-2 tree: sibling values read off the tree,
    // leaf-to-root, with the sibling on the right at both levels.
    let tree = merkle_tree(2, strings(&["1", "2", "3", "4"]), "0".to_string()).unwrap();
    let out = merkle_branch(
        "1".to_string(),
        vec![1, 1],
        vec![tree[5].clone(), tree[3].clone()],
    )
    .unwrap();
    assert_eq!(out.len(), 2);
    assert_eq!(out[0], tree[2]);
    assert_eq!(out[1], tree[1]);
}

#[test]
fn merkle_branch_length_mismatch() {
    assert_eq!(
        merkle_branch("1".to_string(), vec![0, 1], strings(&["1"])),
        Err(Poseidon2Error::LengthMismatch)
    );
    assert_eq!(
        merkle_branch("1".to_string(), vec![], strings(&["1", "2"])),
        Err(Poseidon2Error::LengthMismatch)
    );
}

#[test]
fn merkle_branch_rejects_bad_leaf() {
    assert_eq!(
        merkle_branch("leaf".to_string(), vec![0], strings(&["1"])),
        Err(Poseidon2Error::ParseError)
    );
}

#[test]
fn two_input_hash_matches_pairwise_hash() {
    let a = decode_f("3".to_string()).unwrap();
    let b = decode_f("4".to_string()).unwrap();
    let pairwise = tree_node_hash(a, b);
    assert_eq!(encode_f(pairwise), H_3_4);
    let direct = poseidon2_bn256_internal(&[a, b]);
    assert_eq!(encode_f(direct), H_3_4);
}

#[test]
fn internal_functions_match_string_boundary() {
    let vals: Vec<_> = ["1", "2", "3", "4"]
        .iter()
        .map(|s| decode_f(s.to_string()).unwrap())
        .collect();
    let nodes = merkle_tree_internal(2, &vals, decode_f("1000000".to_string()).unwrap());
    assert_eq!(encode_f(nodes[1]), ROOT_DEPTH2);
    assert_eq!(encode_f(nodes[2]), H_1_2);

    let leaf = decode_f("2".to_string()).unwrap();
    let sib = decode_f("1".to_string()).unwrap();
    let chain = merkle_branch_internal(leaf, &[(false, sib)]);
    assert_eq!(chain.len(), 1);
    assert_eq!(encode_f(chain[0]), H_1_2);
}
