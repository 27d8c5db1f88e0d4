//! What holds of every selection of layers by an adapter.
use vstd::prelude::*;
use vstd::string::*;
use vstd::utf8::valid_utf8;

use crate::array::Tensor;
use crate::error::{Fault, Result};
use crate::lm::lora::config::{
    config_refusal, tensors_refusal, text_refusal, FineTuneType, LoraConfig, LoraParameters, Scale,
};
use crate::lm::lora::layers::{
    adapt, all_grouped, base_of, block_index, first_adapted, first_dot, group_of,
    groups, is_grouped, layer_models, path_matches, quantization_at, selected, Job, LoraLayers,
};
use crate::lm::lora::linear::{
    dora_of, factors_fit, lora_of, rank_is, Factors, LayerModel, LinearModel,
};
use crate::lm::quant::{PerLayerQuantization, Quantization};
use crate::names::lookup;
use crate::scalar::F32;
use crate::text::{before_suffix, i32_value, is_first_match, matches_at};

verus! {

// ---------------------------------------------------------------------------
// Which layers
// ---------------------------------------------------------------------------

/// A key names a layer exactly where it is the layer's path or stands at its
/// end behind a dot.
pub proof fn keys_name_whole_segments(front: Seq<char>, key: Seq<char>, path: Seq<char>)
    ensures
        path_matches(key, key),
        path_matches(front + "."@ + key, key),
        path_matches(path, key) ==> path == key || exists|a: Seq<char>| path == #[trigger] (a + "."@)
            + key,
{
    let whole = front + "."@ + key;
    assert(whole.skip(whole.len() - ("."@ + key).len()) =~= "."@ + key);
    if path_matches(path, key) && path != key {
        let n = path.len() - ("."@ + key).len();
        let a = path.take(n);
        assert(path =~= a + path.skip(n));
        assert(a + ("."@ + key) =~= (a + "."@) + key);
    }
}

/// The blocks that are adapted are the last ones: as many as are asked for, and
/// all where that is not positive or there are no more.
pub proof fn last_blocks_are_adapted(num_layers: i32, num_blocks: i32, block: int)
    requires
        0 <= block < num_blocks,
    ensures
        num_layers <= 0 ==> block >= first_adapted(num_layers, num_blocks),
        0 < num_layers ==> (block >= first_adapted(num_layers, num_blocks) <==> num_blocks - block
            <= num_layers),
{
}

/// With keys a layer is selected exactly where one of them names it and its
/// block, if it is in one, is adapted.
pub proof fn keys_select_what_they_name(
    path: Seq<char>,
    weight: Tensor,
    config: LoraConfig,
    num_blocks: i32,
)
    requires
        config.lora_parameters.keys is Some,
    ensures
        selected(path, weight, config, num_blocks) <==> (exists|i: int|
            0 <= i < config.lora_parameters.keys->0@.len() && path_matches(
                path,
                (#[trigger] config.lora_parameters.keys->0@[i])@,
            )) && (block_index(path) matches Some(b) ==> b >= first_adapted(
            config.num_layers,
            num_blocks,
        )),
{
}

/// Without keys a layer is selected exactly where its weight is a matrix and it
/// is in a block that is adapted.
pub proof fn all_matrices_are_selected_without_keys(
    path: Seq<char>,
    weight: Tensor,
    config: LoraConfig,
    num_blocks: i32,
)
    requires
        config.lora_parameters.keys is None,
    ensures
        block_index(path) is None ==> !selected(path, weight, config, num_blocks),
        weight.shape.len() != 2 ==> !selected(path, weight, config, num_blocks),
        block_index(path) is Some && weight.shape.len() == 2 ==> (selected(
            path,
            weight,
            config,
            num_blocks,
        ) <==> block_index(path)->0 >= first_adapted(config.num_layers, num_blocks)),
{
}

proof fn lemma_first_dot(s: Seq<char>, d: int)
    requires
        0 <= d <= s.len(),
        forall|j: int| 0 <= j < d ==> #[trigger] s[j] != '.',
        d < s.len() ==> s[d] == '.',
    ensures
        first_dot(s) == d,
    decreases s.len(),
{
    if d > 0 {
        let t = s.drop_first();
        assert(s[0] != '.');
        assert forall|j: int| 0 <= j < d - 1 implies #[trigger] t[j] != '.' by {
            assert(s[j + 1] != '.');
        }
        lemma_first_dot(t, d - 1);
    }
}

/// The block of a layer is the number between the first `layers.` of its path
/// and the dot behind it, or the end; a path without `layers.` has none.
pub proof fn block_stands_behind_layers(path: Seq<char>, i: int, d: int)
    ensures
        (forall|j: int| !#[trigger] matches_at(path, "layers."@, j)) ==> block_index(path) is None,
        is_first_match(path, "layers."@, i) && 0 <= d && i + 7 + d <= path.len() && (forall|j: int|
            i + 7 <= j < i + 7 + d ==> #[trigger] path[j] != '.') && (i + 7 + d < path.len()
            ==> path[i + 7 + d] == '.') ==> block_index(path) == i32_value(
            path.subrange(i + 7, i + 7 + d),
        ),
{
    reveal_strlit("layers.");
    if is_first_match(path, "layers."@, i) && 0 <= d && i + 7 + d <= path.len() && (forall|j: int|
        i + 7 <= j < i + 7 + d ==> #[trigger] path[j] != '.') && (i + 7 + d < path.len()
        ==> path[i + 7 + d] == '.') {
        assert(matches_at(path, "layers."@, i));
        let c = choose|c: int| is_first_match(path, "layers."@, c);
        assert(c == i) by {
            if i < c {
                assert(matches_at(path, "layers."@, i));
            } else if c < i {
                assert(matches_at(path, "layers."@, c));
            }
        }
        let rest = path.skip(i + 7);
        assert forall|j: int| 0 <= j < d implies #[trigger] rest[j] != '.' by {
            assert(path[i + 7 + j] != '.');
        }
        lemma_first_dot(rest, d);
        assert(rest.take(d) =~= path.subrange(i + 7, i + 7 + d));
    }
}

// ---------------------------------------------------------------------------
// What is made of them
// ---------------------------------------------------------------------------

/// The layer under an adapter is quantized exactly where the model says how it
/// is and there are scales for it; it has the bias of its path either way, and
/// a quantized one has the scales and offsets of its path.
pub proof fn layers_take_the_tensors_of_their_path(
    weights: Seq<(Seq<char>, Tensor)>,
    path: Seq<char>,
    weight: Tensor,
    quant: Option<Quantization>,
)
    requires
        base_of(weights, path, weight, quant) is Ok,
    ensures
        ({
            let base = base_of(weights, path, weight, quant)->Ok_0;
            let scales = lookup(weights, path + ".scales"@);
            &&& base.bias() == lookup(weights, path + ".bias"@)
            &&& base is Quantized <==> quant is Some && scales is Some
            &&& match base {
                LinearModel::Dense { weight: w, .. } => w == weight,
                LinearModel::Quantized {
                    weight: w,
                    scales: s,
                    quant_biases,
                    group_size,
                    bits,
                    mode,
                    ..
                } => {
                    &&& w == weight
                    &&& Some(s) == scales
                    &&& quant_biases == lookup(weights, path + ".biases"@)
                    &&& group_size == quant->0.group_size
                    &&& bits == quant->0.bits
                    &&& mode == quant->0.mode
                },
            }
        }),
{
}

/// An adapted layer is of the kind that the configuration asks for, with its
/// scale, and has the factors that the adapter has for it, of the rank that is
/// asked for, and under it the layer of its path.
pub proof fn adapted_layers_are_as_configured(
    weights: Seq<(Seq<char>, Tensor)>,
    path: Seq<char>,
    weight: Tensor,
    p: Factors,
    config: LoraConfig,
    quant: Option<&PerLayerQuantization>,
)
    requires
        adapt(weights, path, weight, p, config, quant) is Ok,
    ensures
        ({
            let layer = adapt(weights, path, weight, p, config, quant)->Ok_0;
            &&& layer is Dora <==> config.fine_tune_type == FineTuneType::Dora || config.use_dora
            &&& base_of(weights, path, weight, quantization_at(quant, path)) == Ok::<
                LinearModel,
                Fault,
            >(layer.base())
            &&& config.lora_parameters.rank > 0 ==> rank_is(p, config.lora_parameters.rank as int)
            &&& factors_fit(layer.base(), p)
            &&& match layer {
                LayerModel::Lora { factors, scale, .. } => factors == p && scale
                    == config.lora_parameters.resolved_scale(),
                LayerModel::Dora { factors, magnitude, scale, .. } => factors == p
                    && p.magnitude == Some(magnitude) && scale
                    == config.lora_parameters.resolved_scale(),
            }
        }),
{
}

/// Factors fit a layer exactly where the first goes from its inputs to some
/// rank, and the second from that rank to its outputs.
pub proof fn factors_go_from_inputs_to_outputs(base: LinearModel, p: Factors)
    ensures
        factors_fit(base, p) ==> p.a.shape.len() == 2 && p.b.shape.len() == 2 && Some(
            p.a.shape[0] as int,
        ) == base.input_dims() && p.a.shape[1] == p.b.shape[0] && Some(p.b.shape[1] as int)
            == base.output_dims(),
        p.a.shape.len() == 2 && p.b.shape.len() == 2 && base.input_dims() == Some(
            p.a.shape[0] as int,
        ) && p.a.shape[1] == p.b.shape[0] && base.output_dims() == Some(p.b.shape[1] as int)
            ==> factors_fit(base, p),
{
}

/// Without an `alpha`, or with a rank that is not positive, the scale is the
/// one given, and 20 where none is.
pub proof fn scale_falls_back(p: LoraParameters)
    requires
        p.alpha is None || p.rank <= 0,
    ensures
        p.scale is Some ==> p.resolved_scale() == Scale::Literal(p.scale->0),
        p.scale is None ==> p.resolved_scale() == Scale::Literal(F32 { bits: 0x41a0_0000 }),
{
}

/// A configuration is refused exactly where it is one of all weights or its
/// rank is not positive, and the tensors of an adapter exactly where they are
/// in no regular file or in one that is too large.
pub proof fn configurations_are_refused_for_cause(
    config: LoraConfig,
    path: Seq<char>,
    is_file: bool,
    len: u64,
)
    ensures
        config_refusal(config) is Some <==> config.fine_tune_type == FineTuneType::Full
            || config.lora_parameters.rank <= 0,
        !is_file ==> tensors_refusal(path, is_file, len) is Some,
        is_file && len > 0x8000_0000 ==> tensors_refusal(path, is_file, len) is Some,
        is_file && len <= 0x8000_0000 ==> tensors_refusal(path, is_file, len) is None,
{
}

// ---------------------------------------------------------------------------
// The tensors of an adapter
// ---------------------------------------------------------------------------

/// Tensors group exactly where each first factor has its second, and its norms
/// where they are needed, and each second factor has its first.
pub proof fn tensors_group_when_complete(
    arrays: Seq<(Seq<char>, Tensor)>,
    i: int,
    expect_dora: bool,
)
    ensures
        is_grouped(arrays, i, expect_dora) <==> (before_suffix(arrays[i].0, ".lora_a"@) matches Some(
            path,
        ) ==> lookup(arrays, path + ".lora_b"@) is Some && (expect_dora ==> lookup(
            arrays,
            path + ".m"@,
        ) is Some)) && (before_suffix(arrays[i].0, ".lora_b"@) matches Some(path) ==> lookup(
            arrays,
            path + ".lora_a"@,
        ) is Some),
{
}

/// The factors of a layer are the tensors of its path, with the norms exactly
/// where they are needed.
pub proof fn groups_hold_the_tensors_of_their_path(
    arrays: Seq<(Seq<char>, Tensor)>,
    path: Seq<char>,
    expect_dora: bool,
)
    requires
        group_of(arrays, path, expect_dora) is Some,
    ensures
        ({
            let f = group_of(arrays, path, expect_dora)->0;
            &&& Some(f.a) == lookup(arrays, path + ".lora_a"@)
            &&& Some(f.b) == lookup(arrays, path + ".lora_b"@)
            &&& expect_dora ==> f.magnitude is Some && f.magnitude == lookup(arrays, path + ".m"@)
            &&& !expect_dora ==> f.magnitude is None
        }),
{
}

/// No factor is dropped: where the tensors group, there is a group for each
/// first factor, with what belongs to it.
pub proof fn every_first_factor_has_its_group(
    arrays: Seq<(Seq<char>, Tensor)>,
    n: int,
    expect_dora: bool,
    i: int,
    path: Seq<char>,
) -> (j: int)
    requires
        0 <= i < n <= arrays.len(),
        all_grouped(arrays, expect_dora),
        before_suffix(arrays[i].0, ".lora_a"@) == Some(path),
    ensures
        lookup(arrays, path + ".lora_a"@) is Some ==> 0 <= j < groups(
            arrays,
            n,
            expect_dora,
        ).len() && groups(arrays, n, expect_dora)[j].0 == path && Some(
            groups(arrays, n, expect_dora)[j].1,
        ) == group_of(arrays, path, expect_dora),
    decreases n,
{
    assert(is_grouped(arrays, i, expect_dora));
    if i < n - 1 {
        every_first_factor_has_its_group(arrays, n - 1, expect_dora, i, path)
    } else {
        groups(arrays, n, expect_dora).len() - 1
    }
}

/// A job that adapts no layer is refused.
pub proof fn some_layer_is_adapted(job: Job, r: Result<LoraLayers>)
    requires
        job.gives(r),
        r is Ok,
    ensures
        layer_models(r->Ok_0@).len() > 0,
        job.refusal(job.weights.len() as int) is None,
{
}

/// A layer that an adapter does not fit refuses the whole job.
pub proof fn refused_layers_refuse_the_job(job: Job, r: Result<LoraLayers>, i: int)
    requires
        job.gives(r),
        0 <= i < job.weights.len(),
        job.step(i) is Refused,
    ensures
        r is Err,
{
    lemma_refused(job, job.weights.len() as int, i);
}

proof fn lemma_refused(job: Job, n: int, i: int)
    requires
        0 <= i < n,
        job.step(i) is Refused,
    ensures
        job.refusal(n) is Some,
    decreases n,
{
    if i < n - 1 {
        lemma_refused(job, n - 1, i);
    }
}

/// Factors of matrices have a rank exactly where the first has so many columns
/// and the second so many rows.
pub proof fn ranks_are_between_the_factors(p: Factors, rank: int)
    requires
        p.a.shape.len() == 2,
        p.b.shape.len() == 2,
    ensures
        rank_is(p, rank) <==> p.a.shape[1] == rank && p.b.shape[0] == rank,
{
}

/// A layer takes an adapter exactly where the factors fit it, and a
/// weight-decomposed one exactly where there are also norms, one for each
/// output; norms that are missing are told apart from those that do not fit.
pub proof fn adapters_are_taken_where_they_fit(base: LinearModel, p: Factors, scale: Scale)
    ensures
        lora_of(base, p, scale) is Ok <==> factors_fit(base, p),
        !factors_fit(base, p) ==> lora_of(base, p, scale) == Err::<LayerModel, Fault>(Fault::Shape)
            && dora_of(base, p, scale) == Err::<LayerModel, Fault>(Fault::Shape),
        factors_fit(base, p) && p.magnitude is None ==> dora_of(base, p, scale) == Err::<
            LayerModel,
            Fault,
        >(Fault::Backend),
        factors_fit(base, p) && p.magnitude is Some ==> (dora_of(base, p, scale) is Ok
            <==> p.magnitude->0.shape.len() == 1 && base.output_dims() == Some(
            p.magnitude->0.shape[0] as int,
        )),
{
}

/// The text of a configuration is refused exactly where it is in no regular
/// file, is longer than a megabyte, or is not UTF-8.
pub proof fn texts_are_refused_for_cause(
    path: Seq<char>,
    is_file: bool,
    bytes: Seq<u8>,
    why: Seq<char>,
)
    ensures
        text_refusal(path, is_file, bytes, why) is Some <==> !is_file || bytes.len() > 0x10_0000
            || !valid_utf8(bytes),
{
}

} // verus!
