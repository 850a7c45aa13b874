//! Building the environment plan for the launched command.
//!
//! The plan lists, in application order, the variables to set — first the
//! selected-units variable, holding the comma-joined unit identifiers, then
//! each well-formed `name=value` override — the variables to remove, and the
//! malformed overrides that were skipped (to be reported as warnings, never
//! aborting the run).

use vstd::prelude::*;
use vstd::slice::{slice_subrange, slice_to_vec};
use crate::digits::dec_digits;
use crate::digits::render_u64;
use crate::snapshot::{find_byte, find_byte_in, lemma_find_byte};

verus! {

/// An override split at its first `'='`: name before, value after (the value
/// keeps any further `'='`), or nothing when no `'='` occurs.
pub open spec fn env_split(s: Seq<u8>) -> Option<(Seq<u8>, Seq<u8>)> {
    let p = find_byte(s, 0x3D);
    if p == s.len() {
        None
    } else {
        Some((s.take(p as int), s.skip(p + 1 as int)))
    }
}

/// Splits an environment override into name and value at the first `'='`;
/// an override without `'='` is rejected.
pub fn split_env_pair(s: &[u8]) -> (r: Option<(Vec<u8>, Vec<u8>)>)
    ensures
        match r {
            Some(nv) => env_split(s@) matches Some(p) && nv.0@ =~= p.0 && nv.1@ =~= p.1,
            None => env_split(s@) is None,
        },
{
    proof {
        lemma_find_byte(s@, 0x3D);
    }
    let p = find_byte_in(s, 0x3D);
    if p == s.len() {
        None
    } else {
        let name = slice_to_vec(slice_subrange(s, 0, p));
        let value = slice_to_vec(slice_subrange(s, p + 1, s.len()));
        Some((name, value))
    }
}

/// The comma-joined decimal identifiers, in selection order.
pub open spec fn joined_ids(ids: Seq<usize>) -> Seq<u8>
    decreases ids.len(),
{
    if ids.len() == 0 {
        Seq::empty()
    } else if ids.len() == 1 {
        dec_digits(ids[0] as nat)
    } else {
        joined_ids(ids.drop_last()) + seq![0x2Cu8] + dec_digits(ids.last() as nat)
    }
}

/// Joins unit identifiers into one comma-separated decimal list.
pub fn join_unit_ids(ids: &Vec<usize>) -> (r: Vec<u8>)
    ensures
        r@ =~= joined_ids(ids@),
{
    let mut out: Vec<u8> = Vec::new();
    let mut i: usize = 0;
    while i < ids.len()
        invariant
            i <= ids@.len(),
            out@ == joined_ids(ids@.take(i as int)),
        decreases ids@.len() - i,
    {
        if i > 0 {
            out.push(0x2C);
        }
        let mut digits = render_u64(ids[i] as u64);
        out.append(&mut digits);
        proof {
            assert(ids@.take(i + 1).drop_last() =~= ids@.take(i as int));
            assert(ids@.take(i + 1).last() == ids@[i as int]);
            assert(out@ =~= joined_ids(ids@.take(i + 1)));
        }
        i = i + 1;
    }
    proof {
        assert(ids@.take(ids@.len() as int) =~= ids@);
    }
    out
}

/// The well-formed overrides of `envs`, split into pairs, in order.
pub open spec fn valid_env_pairs(envs: Seq<Seq<u8>>) -> Seq<(Seq<u8>, Seq<u8>)>
    decreases envs.len(),
{
    if envs.len() == 0 {
        Seq::empty()
    } else {
        let rest = valid_env_pairs(envs.drop_last());
        match env_split(envs.last()) {
            Some(p) => rest.push(p),
            None => rest,
        }
    }
}

/// The malformed overrides of `envs` (no `'='`), in order.
pub open spec fn skipped_envs(envs: Seq<Seq<u8>>) -> Seq<Seq<u8>>
    decreases envs.len(),
{
    if envs.len() == 0 {
        Seq::empty()
    } else {
        let rest = skipped_envs(envs.drop_last());
        match env_split(envs.last()) {
            Some(p) => rest,
            None => rest.push(envs.last()),
        }
    }
}

/// The ordered environment plan for the launched command.
pub struct LaunchPlan {
    /// Name-value pairs to set, in application order: the selected-units
    /// variable first, then each well-formed override.
    pub env_sets: Vec<(Vec<u8>, Vec<u8>)>,
    /// Names to remove, after the sets.
    pub env_unsets: Vec<Vec<u8>>,
    /// Malformed overrides, skipped with a warning; never fatal.
    pub skipped: Vec<Vec<u8>>,
}

/// Builds the environment plan: sets the selected-units variable to the
/// comma-joined identifiers, then applies each well-formed `name=value`
/// override in order, skipping (not aborting on) malformed ones, and removes
/// the requested names.
pub fn build_launch_plan(
    gpus: &Vec<usize>,
    gpu_env: &Vec<u8>,
    set_envs: &Vec<Vec<u8>>,
    unset_envs: &Vec<Vec<u8>>,
) -> (p: LaunchPlan)
    ensures
        p.env_sets@.len() == 1 + valid_env_pairs(set_envs.deep_view()).len(),
        p.env_sets@[0].0@ =~= gpu_env@,
        p.env_sets@[0].1@ =~= joined_ids(gpus@),
        forall|i: int|
            1 <= i < p.env_sets@.len() ==> (#[trigger] p.env_sets@[i]).0@ == valid_env_pairs(
                set_envs.deep_view(),
            )[i - 1].0 && p.env_sets@[i].1@ == valid_env_pairs(set_envs.deep_view())[i - 1].1,
        p.skipped@.len() == skipped_envs(set_envs.deep_view()).len(),
        forall|i: int|
            0 <= i < p.skipped@.len() ==> (#[trigger] p.skipped@[i])@ == skipped_envs(
                set_envs.deep_view(),
            )[i],
        p.env_unsets@.len() == unset_envs@.len(),
        forall|i: int|
            0 <= i < unset_envs@.len() ==> (#[trigger] p.env_unsets@[i])@ == unset_envs@[i]@,
{
    let mut env_sets: Vec<(Vec<u8>, Vec<u8>)> = Vec::new();
    let joined = join_unit_ids(gpus);
    let name = slice_to_vec(gpu_env.as_slice());
    env_sets.push((name, joined));
    let mut skipped: Vec<Vec<u8>> = Vec::new();
    let mut i: usize = 0;
    while i < set_envs.len()
        invariant
            i <= set_envs@.len(),
            env_sets@.len() == 1 + valid_env_pairs(set_envs.deep_view().take(i as int)).len(),
            env_sets@[0].0@ =~= gpu_env@,
            env_sets@[0].1@ =~= joined_ids(gpus@),
            forall|k: int|
                1 <= k < env_sets@.len() ==> (#[trigger] env_sets@[k]).0@ == valid_env_pairs(
                    set_envs.deep_view().take(i as int),
                )[k - 1].0 && env_sets@[k].1@ == valid_env_pairs(
                    set_envs.deep_view().take(i as int),
                )[k - 1].1,
            skipped@.len() == skipped_envs(set_envs.deep_view().take(i as int)).len(),
            forall|j: int|
                0 <= j < skipped@.len() ==> (#[trigger] skipped@[j])@ == skipped_envs(
                    set_envs.deep_view().take(i as int),
                )[j],
        decreases set_envs@.len() - i,
    {
        let entry = &set_envs[i];
        proof {
            assert(set_envs.deep_view().take(i + 1).drop_last() =~= set_envs.deep_view().take(
                i as int,
            ));
            assert(set_envs.deep_view().take(i + 1).last() == set_envs.deep_view()[i as int]);
            assert(set_envs.deep_view()[i as int] == set_envs@[i as int]@);
        }
        match split_env_pair(entry.as_slice()) {
            Some(nv) => {
                env_sets.push(nv);
            },
            None => {
                skipped.push(slice_to_vec(entry.as_slice()));
            },
        }
        i = i + 1;
    }
    let mut env_unsets: Vec<Vec<u8>> = Vec::new();
    let mut k: usize = 0;
    while k < unset_envs.len()
        invariant
            k <= unset_envs@.len(),
            env_unsets@.len() == k,
            forall|j: int|
                0 <= j < k ==> (#[trigger] env_unsets@[j])@ == unset_envs@[j]@,
        decreases unset_envs@.len() - k,
    {
        env_unsets.push(slice_to_vec(unset_envs[k].as_slice()));
        k = k + 1;
    }
    proof {
        assert(set_envs.deep_view().take(set_envs@.len() as int) =~= set_envs.deep_view());
        assert(unset_envs.deep_view().take(unset_envs@.len() as int) =~= unset_envs.deep_view());
    }
    LaunchPlan { env_sets, env_unsets, skipped }
}

} // verus!
