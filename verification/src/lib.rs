pub mod codec;
pub mod field;
pub mod merkle;
pub mod sponge;

pub use codec::{decode_f, encode_f, Poseidon2Error};
pub use field::Felt;
pub use merkle::{merkle_branch_internal, merkle_tree_internal, tree_node_hash};
pub use sponge::Poseidon2Hash;

use vstd::arithmetic::power2::pow2;
use vstd::prelude::*;

use crate::codec::{dec_of, dec_value, is_dec_string};
use crate::field::{all_valid, prime, vals};
use crate::merkle::{branch_vals, node_val, path_view, path_valid};
use crate::sponge::sponge_hash;

verus! {

/// Every string in the sequence is a valid decimal literal.
pub open spec fn all_dec_strings(ss: Seq<Seq<char>>) -> bool {
    forall|i: int| 0 <= i < ss.len() ==> is_dec_string(#[trigger] ss[i])
}

/// The field values the decimal strings stand for, each reduced modulo
/// the prime.
pub open spec fn decoded_vals(ss: Seq<Seq<char>>) -> Seq<nat> {
    ss.map_values(|s: Seq<char>| dec_value(s) % prime())
}

/// Decodes a whole sequence of decimal strings, failing on the first one
/// that is not a valid decimal literal.
fn decode_all(xs: &Vec<String>) -> (r: Result<Vec<Felt>, Poseidon2Error>)
    ensures
        match r {
            Ok(fs) => all_dec_strings(xs.deep_view()) && fs.len() == xs.len() && all_valid(fs@)
                && vals(fs@) == decoded_vals(xs.deep_view()),
            Err(e) => !all_dec_strings(xs.deep_view()) && e == Poseidon2Error::ParseError,
        },
{
    let mut fs: Vec<Felt> = Vec::new();
    let mut i: usize = 0;
    while i < xs.len()
        invariant
            0 <= i <= xs@.len(),
            fs.len() == i,
            all_valid(fs@),
            forall|k: int| 0 <= k < i ==> is_dec_string(#[trigger] xs.deep_view()[k]),
            forall|k: int| 0 <= k < i ==> vals(fs@)[k] == dec_value(#[trigger] xs.deep_view()[k])
                % prime(),
        decreases xs@.len() - i,
    {
        let s = xs[i].clone();
        proof {
            assert(s@ == xs.deep_view()[i as int]);
        }
        match decode_f(s) {
            Ok(f) => {
                fs.push(f);
            },
            Err(e) => {
                return Err(e);
            },
        }
        i += 1;
    }
    proof {
        assert(vals(fs@) =~= decoded_vals(xs.deep_view()));
    }
    Ok(fs)
}

/// Encodes a whole sequence of field elements back to decimal strings.
fn encode_all(xs: &Vec<Felt>) -> (r: Vec<String>)
    ensures
        r@.len() == xs@.len(),
        forall|k: int| 0 <= k < xs@.len() ==> r.deep_view()[k] == dec_of(
            (#[trigger] xs@[k]).val(),
        ),
{
    let mut r: Vec<String> = Vec::new();
    let mut i: usize = 0;
    while i < xs.len()
        invariant
            0 <= i <= xs@.len(),
            r.len() == i,
            forall|k: int| 0 <= k < i ==> r.deep_view()[k] == dec_of((#[trigger] xs@[k]).val()),
        decreases xs@.len() - i,
    {
        let s = encode_f(xs[i]);
        r.push(s);
        i += 1;
    }
    r
}

/// Computes the Poseidon2 hash of a sequence of field elements.
pub fn poseidon2_bn256_internal(values: &[Felt]) -> (r: Felt)
    requires
        all_valid(values@),
    ensures
        r.val() == sponge_hash(vals(values@), false),
        r.valid(),
{
    Poseidon2Hash::hash(values, false)
}

/// Hashes a sequence of decimal-string field elements: decodes every
/// value, runs the fixed-length sponge hash, and encodes the result.
pub fn poseidon2_bn256_hash(values: Vec<String>) -> (r: Result<
    String,
    Poseidon2Error,
>)
    ensures
        match r {
            Ok(s) => all_dec_strings(values.deep_view()) && s@ == dec_of(
                sponge_hash(decoded_vals(values.deep_view()), false),
            ),
            Err(e) => !all_dec_strings(values.deep_view()) && e == Poseidon2Error::ParseError,
        },
{
    let fs = match decode_all(&values) {
        Ok(fs) => fs,
        Err(e) => {
            return Err(e);
        },
    };
    let h = poseidon2_bn256_internal(fs.as_slice());
    Ok(encode_f(h))
}

/// Computes the hashes along an authentication path from a leaf value,
/// all as decimal strings; the direction integers are booleans (nonzero
/// means the sibling is the right child), given leaf-to-root, and the
/// result lists the reconstructed node values leaf-to-root.
pub fn merkle_branch(leaf: String, proof_path: Vec<usize>, siblings: Vec<String>) -> (r: Result<
    Vec<String>,
    Poseidon2Error,
>)
    ensures
        match r {
            Ok(out) => proof_path@.len() == siblings@.len() && is_dec_string(leaf@)
                && all_dec_strings(siblings.deep_view()) && out@.len() == siblings@.len() && ({
                let path = Seq::new(
                    siblings@.len(),
                    |k: int|
                        (
                            proof_path@[k] != 0,
                            dec_value(siblings.deep_view()[k]) % prime(),
                        ),
                );
                forall|k: int| 0 <= k < out@.len() ==> out.deep_view()[k] == dec_of(
                    branch_vals(dec_value(leaf@) % prime(), path)[k],
                )
            }),
            Err(Poseidon2Error::LengthMismatch) => proof_path@.len() != siblings@.len(),
            Err(Poseidon2Error::ParseError) => proof_path@.len() == siblings@.len() && !(
            is_dec_string(leaf@) && all_dec_strings(siblings.deep_view())),
        },
{
    if proof_path.len() != siblings.len() {
        return Err(Poseidon2Error::LengthMismatch);
    }
    let leaf_f = match decode_f(leaf) {
        Ok(f) => f,
        Err(e) => {
            return Err(e);
        },
    };
    let sib_f = match decode_all(&siblings) {
        Ok(fs) => fs,
        Err(e) => {
            return Err(e);
        },
    };
    let mut conv: Vec<(bool, Felt)> = Vec::new();
    let mut i: usize = 0;
    while i < proof_path.len()
        invariant
            0 <= i <= proof_path@.len(),
            proof_path@.len() == siblings@.len(),
            sib_f.len() == siblings@.len(),
            all_valid(sib_f@),
            vals(sib_f@) == decoded_vals(siblings.deep_view()),
            conv.len() == i,
            forall|k: int| 0 <= k < i ==> #[trigger] conv@[k] == (
                proof_path@[k] != 0,
                sib_f@[k],
            ),
        decreases proof_path@.len() - i,
    {
        let d = proof_path[i];
        let s = sib_f[i];
        conv.push((d != 0, s));
        i += 1;
    }
    proof {
        assert forall|k: int| 0 <= k < conv@.len() implies (#[trigger] conv@[k]).1.valid() by {
            assert(conv@[k].1 == sib_f@[k]);
        }
        assert(path_valid(conv@));
    }
    let res = merkle_branch_internal(leaf_f, conv.as_slice());
    let out = encode_all(&res);
    proof {
        let path = Seq::new(
            siblings@.len(),
            |k: int| (proof_path@[k] != 0, dec_value(siblings.deep_view()[k]) % prime()),
        );
        assert forall|k: int| 0 <= k < conv@.len() implies path_view(conv@)[k] == path[k] by {
            assert(vals(sib_f@)[k] == sib_f@[k].val());
            assert(decoded_vals(siblings.deep_view())[k] == dec_value(siblings.deep_view()[k])
                % prime());
        }
        assert(path_view(conv@) =~= path);
        assert forall|k: int| 0 <= k < out@.len() implies out.deep_view()[k] == dec_of(
            branch_vals(dec_value(leaf@) % prime(), path)[k],
        ) by {
            assert(out.deep_view()[k] == dec_of(res@[k].val()));
            assert(vals(res@)[k] == res@[k].val());
        }
    }
    Ok(out)
}

/// Builds the whole Merkle tree of the given depth for the given list of
/// decimal-string leaf values, padding missing leaves with the default;
/// the result is the 1-indexed node array as decimal strings, with the
/// unused slot 0 holding zero. Leaf values beyond `2^depth` are ignored.
pub fn merkle_tree(depth: usize, values: Vec<String>, def: String) -> (r: Result<
    Vec<String>,
    Poseidon2Error,
>)
    requires
        pow2(depth as nat + 1) <= usize::MAX,
    ensures
        match r {
            Ok(out) => all_dec_strings(values.deep_view()) && is_dec_string(def@) && out@.len()
                == pow2(depth as nat + 1) && forall|j: int| 0 <= j < out@.len()
                ==> out.deep_view()[j] == dec_of(
                node_val(
                    depth as nat,
                    decoded_vals(values.deep_view()),
                    dec_value(def@) % prime(),
                    j as nat,
                ),
            ),
            Err(e) => !(all_dec_strings(values.deep_view()) && is_dec_string(def@)) && e
                == Poseidon2Error::ParseError,
        },
{
    let vs = match decode_all(&values) {
        Ok(fs) => fs,
        Err(e) => {
            return Err(e);
        },
    };
    let def_f = match decode_f(def) {
        Ok(f) => f,
        Err(e) => {
            return Err(e);
        },
    };
    let nodes = merkle_tree_internal(depth, vs.as_slice(), def_f);
    let out = encode_all(&nodes);
    proof {
        assert forall|j: int| 0 <= j < out@.len() implies out.deep_view()[j] == dec_of(
            node_val(
                depth as nat,
                decoded_vals(values.deep_view()),
                dec_value(def@) % prime(),
                j as nat,
            ),
        ) by {
            assert(out.deep_view()[j] == dec_of(nodes@[j].val()));
            assert(nodes@[j].val() == node_val(
                depth as nat,
                vals(vs@),
                def_f.val(),
                j as nat,
            ));
        }
    }
    Ok(out)
}

} // verus!
