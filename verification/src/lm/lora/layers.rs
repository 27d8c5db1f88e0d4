//! Which layers of a model an adapter adapts.
use vstd::prelude::*;
use vstd::string::*;

use crate::array::{Array, Tensor};
use crate::error::{backend, Error, Fault, Result};
use crate::lm::lora::config::{check_config, config_refusal, LoraConfig};
use crate::lm::lora::linear::{
    dense_of, dora_of, is_linear, lora_of, quantized_of, rank_is, validate_config_rank,
    AdapterParams, BaseLinear, DoRALinear, Factors, LayerModel, LinearModel, LoRALinear, LoraLayer,
};
use crate::lm::quant::{PerLayerQuantization, Quantization};
use crate::names::{
    assigned, every_entry_is_found, keys_distinct, lemma_mapped_lookup, lemma_no_match, lookup, mapped, NameMap,
};
use crate::order::{alphabetical, sort_texts};
use crate::text::{
    all_quoted, before_suffix, bracketed, chars_of, concat, decimal, decimal_text, ends_with, find,
    i32_value, is_first_match, matches_at, parse_i32, quoted, quoted_list, quoted_text, same_text,
    strip_suffix, texts,
};

verus! {

/// The tensors of a model by name.
pub type Weights = NameMap<Array>;

/// The adapted layers of a model by path.
pub type LoraLayers = NameMap<LoraLayer>;

/// What named arrays stand for.
pub open spec fn tensors(s: Seq<(Seq<char>, Array)>) -> Seq<(Seq<char>, Tensor)> {
    mapped(s, |a: Array| a@)
}

/// What named adapters stand for.
pub open spec fn factors(s: Seq<(Seq<char>, AdapterParams)>) -> Seq<(Seq<char>, Factors)> {
    mapped(s, |p: AdapterParams| p@)
}

/// What named layers stand for.
pub open spec fn layer_models(s: Seq<(Seq<char>, LoraLayer)>) -> Seq<(Seq<char>, LayerModel)> {
    mapped(s, |l: LoraLayer| l@)
}

// ---------------------------------------------------------------------------
// Paths
// ---------------------------------------------------------------------------

/// Whether `key` names the layer at `path`: it is the path or a whole number of
/// its last segments.
pub open spec fn path_matches(path: Seq<char>, key: Seq<char>) -> bool {
    path == key || ends_with(path, "."@ + key)
}

/// Whether `key` names the layer at `path`: it is the path or a whole number of
/// its last segments.
pub fn path_matches_key(path: &str, key: &str) -> (r: bool)
    ensures
        r == path_matches(path@, key@),
{
    if same_text(path, key) {
        return true;
    }
    let tail = concat(".", key);
    match strip_suffix(path, tail.as_str()) {
        Some(_) => true,
        None => false,
    }
}

/// Where the first dot is, the length where there is none.
pub open spec fn first_dot(s: Seq<char>) -> int
    decreases s.len(),
{
    if s.len() == 0 || s[0] == '.' {
        0
    } else {
        1 + first_dot(s.drop_first())
    }
}

/// The number behind the first `layers.` of a path: the block that the layer
/// is in, if it is in one.
pub open spec fn block_index(path: Seq<char>) -> Option<i32> {
    if exists|i: int| #[trigger] matches_at(path, "layers."@, i) {
        let i = choose|i: int| is_first_match(path, "layers."@, i);
        let rest = path.skip(i + "layers."@.len());
        i32_value(rest.take(first_dot(rest)))
    } else {
        None
    }
}

proof fn lemma_first_match_unique(s: Seq<char>, p: Seq<char>, i: int, j: int)
    requires
        is_first_match(s, p, i),
        is_first_match(s, p, j),
    ensures
        i == j,
{
    if i < j {
        assert(matches_at(s, p, i));
    } else if j < i {
        assert(matches_at(s, p, j));
    }
}

/// The block that the layer at `path` is in, if it is in one.
pub fn parse_block_index(path: &str) -> (r: Option<i32>)
    ensures
        r == block_index(path@),
{
    match find(path, "layers.") {
        None => None,
        Some(i) => {
            proof {
                assert(matches_at(path@, "layers."@, i as int));
                let c = choose|c: int| is_first_match(path@, "layers."@, c);
                lemma_first_match_unique(path@, "layers."@, i as int, c);
            }
            let n: usize = path.unicode_len();
            let m: usize = "layers.".unicode_len();
            let start: usize = i + m;
            let v: Vec<char> = chars_of(path);
            let ghost rest = path@.skip(start as int);
            let mut end: usize = start;
            assert(rest.skip(0) =~= rest);
            while end < n && v[end] != '.'
                invariant
                    n == path@.len(),
                    v@ == path@,
                    start <= end <= n,
                    rest == path@.skip(start as int),
                    first_dot(rest) == end - start + first_dot(rest.skip(end - start)),
                decreases n - end,
            {
                let ghost t = rest.skip(end - start);
                assert(t[0] == path@[end as int]);
                assert(t.drop_first() =~= rest.skip(end + 1 - start));
                end = end + 1;
            }
            proof {
                let t = rest.skip(end - start);
                if end < n {
                    assert(t[0] == path@[end as int]);
                }
                assert(first_dot(t) == 0);
                assert(path@.subrange(start as int, end as int) =~= rest.take(end - start));
            }
            parse_i32(path.substring_char(start, end))
        },
    }
}

/// The first block that is adapted: the last `num_layers` are, and all where
/// that is not positive or there are no more.
pub open spec fn first_adapted(num_layers: i32, num_blocks: i32) -> int {
    if num_layers <= 0 || num_blocks <= num_layers {
        0
    } else {
        num_blocks - num_layers
    }
}

/// Whether one of the keys names the layer at `path`.
pub open spec fn any_key_matches(path: Seq<char>, keys: Seq<String>) -> bool {
    exists|i: int| 0 <= i < keys.len() && path_matches(path, (#[trigger] keys[i])@)
}

/// Whether the layer at `path` is to be adapted: a key names it, or without
/// keys it is in a block and its weight is a matrix; and its block, if it is in
/// one, is among those adapted.
pub open spec fn selected(path: Seq<char>, weight: Tensor, config: LoraConfig, num_blocks: i32)
    -> bool {
    &&& match config.lora_parameters.keys {
        Some(keys) => any_key_matches(path, keys@),
        None => weight.shape.len() == 2 && block_index(path) is Some,
    }
    &&& match block_index(path) {
        Some(b) => b >= first_adapted(config.num_layers, num_blocks),
        None => true,
    }
}

fn matches_any(path: &str, keys: &Vec<String>) -> (r: bool)
    ensures
        r == any_key_matches(path@, keys@),
{
    let mut i: usize = 0;
    while i < keys.len()
        invariant
            0 <= i <= keys.len(),
            forall|j: int| 0 <= j < i ==> !path_matches(path@, (#[trigger] keys@[j])@),
        decreases keys.len() - i,
    {
        if path_matches_key(path, keys[i].as_str()) {
            assert(path_matches(path@, keys@[i as int]@));
            return true;
        }
        i = i + 1;
    }
    false
}

fn is_selected(path: &str, weight: &Array, config: &LoraConfig, num_blocks: i32) -> (r: bool)
    ensures
        r == selected(path@, weight@, *config, num_blocks),
{
    match &config.lora_parameters.keys {
        Some(keys) => {
            if !matches_any(path, keys) {
                return false;
            }
        },
        None => {
            if weight.ndim() != 2 {
                return false;
            }
        },
    }
    let first: i64 = if config.num_layers <= 0 || num_blocks <= config.num_layers {
        0
    } else {
        num_blocks as i64 - config.num_layers as i64
    };
    match parse_block_index(path) {
        Some(b) => b as i64 >= first,
        None => config.lora_parameters.keys.is_some(),
    }
}

/// A number of layers that is not positive selects what one as large as the
/// model does: every block.
pub proof fn nonpositive_selects_all(num_layers: i32, num_blocks: i32, large: i32)
    requires
        num_layers <= 0,
        large >= num_blocks,
    ensures
        first_adapted(num_layers, num_blocks) == 0,
        first_adapted(large, num_blocks) == 0,
{
}

// ---------------------------------------------------------------------------
// Layers
// ---------------------------------------------------------------------------

/// The layer at `path`: quantized where the model says so and has scales for
/// it, else dense.
pub open spec fn base_of(
    weights: Seq<(Seq<char>, Tensor)>,
    path: Seq<char>,
    weight: Tensor,
    quant: Option<Quantization>,
) -> core::result::Result<LinearModel, Fault> {
    let bias = lookup(weights, path + ".bias"@);
    match (quant, lookup(weights, path + ".scales"@)) {
        (Some(q), Some(scales)) => quantized_of(
            weight,
            scales,
            lookup(weights, path + ".biases"@),
            bias,
            q.group_size,
            q.bits,
            q.mode,
        ),
        _ => dense_of(weight, bias),
    }
}

/// How the layer at `path` is quantized, if at all.
pub open spec fn quantization_at(quant: Option<&PerLayerQuantization>, path: Seq<char>) -> Option<
    Quantization,
> {
    match quant {
        Some(q) => q.for_path(path),
        None => None,
    }
}

fn get_dup(weights: &Weights, name: &str) -> (r: Option<Array>)
    ensures
        crate::array::view_opt(r) == lookup(tensors(weights@), name@),
{
    proof {
        lemma_mapped_lookup(weights@, |a: Array| a@, name@);
    }
    match weights.get(name) {
        Some(a) => Some(a.dup()),
        None => None,
    }
}

fn build_base_linear(
    weights: &Weights,
    path: &str,
    weight: &Array,
    quant: Option<&PerLayerQuantization>,
) -> (r: Result<BaseLinear>)
    ensures
        is_linear(
            r,
            base_of(tensors(weights@), path@, weight@, quantization_at(quant, path@)),
        ),
{
    let bias = get_dup(weights, concat(path, ".bias").as_str());
    let q = match quant {
        Some(c) => c.quantization_for(path),
        None => None,
    };
    let scales = get_dup(weights, concat(path, ".scales").as_str());
    match (q, scales) {
        (Some(q), Some(s)) => {
            let biases = get_dup(weights, concat(path, ".biases").as_str());
            BaseLinear::quantized_mode(
                weight.dup(),
                s,
                biases,
                bias,
                q.group_size,
                q.bits,
                q.mode,
            )
        },
        _ => BaseLinear::dense(weight.dup(), bias),
    }
}

/// What becomes of one tensor of a model.
pub ghost enum Step {
    /// It is not the weight of a layer to be adapted.
    Skip,
    /// The layer at the path is to be adapted and the adapter has nothing for
    /// it.
    Missing(Seq<char>),
    /// The layer at the path is adapted.
    Adapted(Seq<char>, LayerModel),
    /// The adapter does not fit the layer.
    Refused(Fault),
}

/// What becomes of the layer at `path`, which is to be adapted and for which
/// the adapter has the factors `p`.
pub open spec fn adapt(
    weights: Seq<(Seq<char>, Tensor)>,
    path: Seq<char>,
    weight: Tensor,
    p: Factors,
    config: LoraConfig,
    quant: Option<&PerLayerQuantization>,
) -> core::result::Result<LayerModel, Fault> {
    let rank = config.lora_parameters.rank;
    if rank > 0 && !rank_is(p, rank as int) {
        Err(Fault::Shape)
    } else {
        match base_of(weights, path, weight, quantization_at(quant, path)) {
            Err(f) => Err(f),
            Ok(base) => if config.is_dora() {
                dora_of(base, p, config.lora_parameters.resolved_scale())
            } else {
                lora_of(base, p, config.lora_parameters.resolved_scale())
            },
        }
    }
}

/// What becomes of the tensor at `i`.
pub open spec fn step_of(
    weights: Seq<(Seq<char>, Tensor)>,
    i: int,
    params: Seq<(Seq<char>, Factors)>,
    config: LoraConfig,
    quant: Option<&PerLayerQuantization>,
    num_blocks: i32,
) -> Step {
    match before_suffix(weights[i].0, ".weight"@) {
        None => Step::Skip,
        Some(path) => if !selected(path, weights[i].1, config, num_blocks) {
            Step::Skip
        } else {
            match lookup(params, path) {
                None => Step::Missing(path),
                Some(p) => match adapt(weights, path, weights[i].1, p, config, quant) {
                    Ok(layer) => Step::Adapted(path, layer),
                    Err(f) => Step::Refused(f),
                },
            }
        },
    }
}

fn adapt_layer(
    weights: &Weights,
    path: &str,
    weight: &Array,
    p: &AdapterParams,
    config: &LoraConfig,
    quant: Option<&PerLayerQuantization>,
) -> (r: Result<LoraLayer>)
    ensures
        match adapt(tensors(weights@), path@, weight@, p@, *config, quant) {
            Ok(m) => r is Ok && r->Ok_0@ == m,
            Err(f) => r is Err && r->Err_0.is_fault(f),
        },
{
    let rank: i32 = config.rank();
    if rank > 0 {
        let who = if config.is_dora() {
            "DoRALinear"
        } else {
            "LoRALinear"
        };
        match validate_config_rank(p, rank as usize, who) {
            Ok(_) => {},
            Err(e) => {
                return Err(e);
            },
        }
    }
    let base = match build_base_linear(weights, path, weight, quant) {
        Ok(b) => b,
        Err(e) => {
            return Err(e);
        },
    };
    let params = p.try_clone()?;
    if config.is_dora() {
        match DoRALinear::new(base, params, config.scale()) {
            Ok(l) => Ok(LoraLayer::Dora(l)),
            Err(e) => Err(e),
        }
    } else {
        match LoRALinear::new(base, params, config.scale()) {
            Ok(l) => Ok(LoraLayer::Lora(l)),
            Err(e) => Err(e),
        }
    }
}

/// Everything that decides which layers are adapted.
pub ghost struct Job {
    pub weights: Seq<(Seq<char>, Tensor)>,
    pub params: Seq<(Seq<char>, Factors)>,
    pub config: LoraConfig,
    pub quant: Option<PerLayerQuantization>,
    pub num_blocks: i32,
}

impl Job {
    pub open spec fn step(self, i: int) -> Step {
        step_of(
            self.weights,
            i,
            self.params,
            self.config,
            match self.quant {
                Some(q) => Some(&q),
                None => None,
            },
            self.num_blocks,
        )
    }

    /// The first refusal among the first `n` tensors.
    pub open spec fn refusal(self, n: int) -> Option<Fault>
        decreases n,
    {
        if n <= 0 {
            None
        } else {
            match self.refusal(n - 1) {
                Some(f) => Some(f),
                None => match self.step(n - 1) {
                    Step::Refused(f) => Some(f),
                    _ => None,
                },
            }
        }
    }

    /// The paths among the first `n` tensors for which the adapter has nothing.
    pub open spec fn missing(self, n: int) -> Seq<Seq<char>>
        decreases n,
    {
        if n <= 0 {
            Seq::empty()
        } else {
            match self.step(n - 1) {
                Step::Missing(path) => self.missing(n - 1).push(path),
                _ => self.missing(n - 1),
            }
        }
    }

    /// The adapted layers among the first `n` tensors.
    pub open spec fn adapted(self, n: int) -> Seq<(Seq<char>, LayerModel)>
        decreases n,
    {
        if n <= 0 {
            Seq::empty()
        } else {
            match self.step(n - 1) {
                Step::Adapted(path, layer) => self.adapted(n - 1).push((path, layer)),
                _ => self.adapted(n - 1),
            }
        }
    }

    /// The names among the adapter's first `n` that no adapted layer has.
    pub open spec fn unused(self, n: int) -> Seq<Seq<char>>
        decreases n,
    {
        if n <= 0 {
            Seq::empty()
        } else if lookup(self.adapted(self.weights.len() as int), self.params[n - 1].0) is None {
            self.unused(n - 1).push(self.params[n - 1].0)
        } else {
            self.unused(n - 1)
        }
    }

    /// Why the adapted layers are not all that was asked for, if they are not:
    /// keys name a layer for which the adapter has nothing, the adapter has
    /// factors for no layer, or nothing is adapted at all. The paths are named
    /// in alphabetical order.
    pub open spec fn incomplete(self) -> Option<Seq<char>> {
        let missing = self.missing(self.weights.len() as int);
        let unused = self.unused(self.params.len() as int);
        if self.config.lora_parameters.keys is Some && missing.len() > 0 {
            Some(missing_text(missing.len(), bracketed(all_quoted(alphabetical(missing)))))
        } else if unused.len() > 0 {
            Some(unused_text(unused.len(), bracketed(all_quoted(alphabetical(unused)))))
        } else if self.adapted(self.weights.len() as int).len() == 0 {
            Some(NOTHING_ADAPTED@)
        } else {
            None
        }
    }

    /// Whether `r` is what this job gives: the layers adapted, the first
    /// refusal, or the reason why they are not all that was asked for.
    pub open spec fn gives(self, r: Result<LoraLayers>) -> bool {
        match self.refusal(self.weights.len() as int) {
            Some(f) => r is Err && r->Err_0.is_fault(f),
            None => match self.incomplete() {
                Some(text) => r is Err && r->Err_0 is Backend && r->Err_0.text() == text,
                None => r is Ok && layer_models(r->Ok_0@) == self.adapted(
                    self.weights.len() as int,
                ),
            },
        }
    }
}

/// What is said where the adapter has nothing for `n` layers that were asked
/// for, which `list` names.
pub open spec fn missing_text(n: nat, list: Seq<char>) -> Seq<char> {
    "load_adapters: adapter is missing factors for "@ + decimal(n)
        + " explicitly-selected target(s): "@ + list
        + "; the adapter_config.json `keys`/`num_layers` selection does not match the adapters.safetensors contents"@
}

/// What is said where the adapter has factors for no layer in `n` cases, which
/// `list` names.
pub open spec fn unused_text(n: nat, list: Seq<char>) -> Seq<char> {
    "load_adapters: "@ + decimal(n) + " adapter factor group(s) match no base layer: "@ + list
        + "; the adapters.safetensors paths do not line up with the base model weights (path-prefix mismatch or config drift)"@
}

/// What is said where no layer is adapted.
pub const NOTHING_ADAPTED: &'static str = "load_adapters: no base layer was adapted — the adapter_config.json `keys`/`num_layers` selection matched nothing in the base model, or adapters.safetensors carried no factors";

/// The error where the adapter has nothing for `n` layers that were asked for,
/// which `list` names.
pub fn missing_error(n: usize, list: &str) -> (e: Error)
    ensures
        e is Backend,
        e.text() == missing_text(n as nat, list@),
{
    let mut text = concat(
        "load_adapters: adapter is missing factors for ",
        decimal_text(n as u64).as_str(),
    );
    text.append(" explicitly-selected target(s): ");
    text.append(list);
    text.append(
        "; the adapter_config.json `keys`/`num_layers` selection does not match the adapters.safetensors contents",
    );
    backend(text.as_str())
}

/// The error where the adapter has factors for no layer in `n` cases, which
/// `list` names.
pub fn unused_error(n: usize, list: &str) -> (e: Error)
    ensures
        e is Backend,
        e.text() == unused_text(n as nat, list@),
{
    let mut text = concat("load_adapters: ", decimal_text(n as u64).as_str());
    text.append(" adapter factor group(s) match no base layer: ");
    text.append(list);
    text.append(
        "; the adapters.safetensors paths do not line up with the base model weights (path-prefix mismatch or config drift)",
    );
    backend(text.as_str())
}

/// The job of the given arguments.
pub open spec fn job_of(
    weights: &Weights,
    config: &LoraConfig,
    params: Seq<(Seq<char>, Factors)>,
    quant: Option<&PerLayerQuantization>,
    num_blocks: i32,
) -> Job {
    Job {
        weights: tensors(weights@),
        params,
        config: *config,
        quant: match quant {
            Some(q) => Some(*q),
            None => None,
        },
        num_blocks,
    }
}

/// An adapted layer comes from a tensor of its name.
proof fn lemma_adapted_source(job: Job, n: int, i: int) -> (j: int)
    requires
        0 <= n,
        0 <= i < job.adapted(n).len(),
    ensures
        0 <= j < n,
        job.step(j) matches Step::Adapted(path, layer) && (path, layer) == job.adapted(n)[i],
        before_suffix(job.weights[j].0, ".weight"@) == Some(job.adapted(n)[i].0),
    decreases n,
{
    match job.step(n - 1) {
        Step::Adapted(path, layer) => if i == job.adapted(n - 1).len() {
            n - 1
        } else {
            lemma_adapted_source(job, n - 1, i)
        },
        _ => lemma_adapted_source(job, n - 1, i),
    }
}

proof fn lemma_same_stem(a: Seq<char>, b: Seq<char>, suffix: Seq<char>)
    requires
        before_suffix(a, suffix) is Some,
        before_suffix(a, suffix) == before_suffix(b, suffix),
    ensures
        a == b,
{
    let stem = before_suffix(a, suffix)->0;
    assert(a =~= stem + suffix) by {
        assert(a =~= a.take(a.len() - suffix.len()) + a.skip(a.len() - suffix.len()));
    }
    assert(b =~= stem + suffix) by {
        assert(b =~= b.take(b.len() - suffix.len()) + b.skip(b.len() - suffix.len()));
    }
}

/// A layer is adapted at most once.
proof fn lemma_adapted_new(job: Job, n: int, path: Seq<char>)
    requires
        keys_distinct(job.weights),
        0 <= n < job.weights.len(),
        before_suffix(job.weights[n].0, ".weight"@) == Some(path),
    ensures
        lookup(job.adapted(n), path) is None,
{
    assert forall|i: int| 0 <= i < job.adapted(n).len() implies (#[trigger] job.adapted(n)[i]).0
        != path by {
        let j = lemma_adapted_source(job, n, i);
        if job.adapted(n)[i].0 == path {
            lemma_same_stem(job.weights[j].0, job.weights[n].0, ".weight"@);
            assert(job.weights[j].0 != job.weights[n].0);
        }
    }
    lemma_no_match(job.adapted(n), path);
}

proof fn lemma_pushed(s: Seq<(Seq<char>, LoraLayer)>, k: Seq<char>, v: LoraLayer)
    requires
        keys_distinct(s),
        lookup(layer_models(s), k) is None,
    ensures
        layer_models(assigned(s, k, v)) == layer_models(s).push((k, v@)),
{
    lemma_mapped_lookup(s, |l: LoraLayer| l@, k);
    if s.len() > 0 {
        assert(assigned(s, k, v) == s.push((k, v)));
    } else {
        assert(assigned(s, k, v) =~= s.push((k, v)));
    }
    assert(layer_models(s.push((k, v))) =~= layer_models(s).push((k, v@)));
}

/// Adapts the layers of a model that the configuration selects. Refused where
/// the adapter does not fit a layer, and where the adapted layers are not all
/// that was asked for.
pub fn linear_to_lora_layers(
    weights: &Weights,
    config: &LoraConfig,
    adapter_params: &NameMap<AdapterParams>,
    quant: Option<&PerLayerQuantization>,
    num_blocks: i32,
) -> (r: Result<LoraLayers>)
    ensures
        job_of(weights, config, factors(adapter_params@), quant, num_blocks).gives(r),
{
    let ghost job = job_of(weights, config, factors(adapter_params@), quant, num_blocks);
    let n: usize = weights.len();
    let mut out: LoraLayers = NameMap::new();
    let mut missing: Vec<String> = Vec::new();
    let mut i: usize = 0;
    proof {
        assert(layer_models(out@) =~= job.adapted(0));
        assert(texts(missing@) =~= job.missing(0));
        assert(keys_distinct(job.weights)) by {
            assert forall|a: int, b: int| 0 <= a < b < job.weights.len() implies (
            #[trigger] job.weights[a]).0 != (#[trigger] job.weights[b]).0 by {
                assert(weights@[a].0 != weights@[b].0);
            }
        }
    }
    while i < n
        invariant
            n == weights@.len(),
            0 <= i <= n,
            job == job_of(weights, config, factors(adapter_params@), quant, num_blocks),
            keys_distinct(job.weights),
            job.refusal(i as int) is None,
            keys_distinct(out@),
            layer_models(out@) == job.adapted(i as int),
            texts(missing@) == job.missing(i as int),
        decreases n - i,
    {
        let key = weights.name_at(i);
        let weight = weights.value_at(i);
        assert(job.weights[i as int] == (key@, weight@));
        match strip_suffix(key, ".weight") {
            None => {},
            Some(path) => {
                if is_selected(path, weight, config, num_blocks) {
                    proof {
                        lemma_mapped_lookup(adapter_params@, |p: AdapterParams| p@, path@);
                    }
                    match adapter_params.get(path) {
                        None => {
                            let ghost before = texts(missing@);
                            missing.push(path.to_owned());
                            assert(texts(missing@) =~= before.push(path@));
                        },
                        Some(p) => {
                            match adapt_layer(weights, path, weight, p, config, quant) {
                                Ok(layer) => {
                                    proof {
                                        lemma_adapted_new(job, i as int, path@);
                                        lemma_pushed(out@, path@, layer);
                                    }
                                    out.insert(path, layer);
                                },
                                Err(e) => {
                                    proof {
                                        lemma_refusal_stays(job, i + 1, n as int);
                                    }
                                    return Err(e);
                                },
                            }
                        },
                    }
                }
            },
        }
        i = i + 1;
    }
    match check_adapter_completeness(&out, adapter_params, &missing, config, Ghost(job)) {
        Ok(_) => Ok(out),
        Err(e) => Err(e),
    }
}

proof fn lemma_refusal_stays(job: Job, m: int, n: int)
    requires
        0 <= m <= n,
        job.refusal(m) is Some,
    ensures
        job.refusal(n) == job.refusal(m),
    decreases n,
{
    if m < n {
        lemma_refusal_stays(job, m, n - 1);
    }
}

/// Checks that the adapted layers are all that was asked for.
fn check_adapter_completeness(
    applied: &LoraLayers,
    adapter_params: &NameMap<AdapterParams>,
    missing: &Vec<String>,
    config: &LoraConfig,
    Ghost(job): Ghost<Job>,
) -> (r: Result<()>)
    requires
        job.params == factors(adapter_params@),
        job.config == *config,
        layer_models(applied@) == job.adapted(job.weights.len() as int),
        texts(missing@) == job.missing(job.weights.len() as int),
    ensures
        match job.incomplete() {
            Some(text) => r is Err && r->Err_0 is Backend && r->Err_0.text() == text,
            None => r is Ok,
        },
{
    if config.lora_parameters.keys.is_some() && missing.len() > 0 {
        assert(texts(missing@).len() == missing@.len());
        return Err(missing_error(missing.len(), quoted_list(&sort_texts(missing)).as_str()));
    }
    let n: usize = adapter_params.len();
    let mut unused: Vec<String> = Vec::new();
    let mut i: usize = 0;
    assert(texts(unused@) =~= job.unused(0));
    while i < n
        invariant
            n == adapter_params@.len(),
            0 <= i <= n,
            job.params == factors(adapter_params@),
            layer_models(applied@) == job.adapted(job.weights.len() as int),
            texts(unused@) == job.unused(i as int),
        decreases n - i,
    {
        let name = adapter_params.name_at(i);
        proof {
            lemma_mapped_lookup(applied@, |l: LoraLayer| l@, name@);
            assert(job.params[i as int].0 == name@);
        }
        if !applied.contains_key(name) {
            let ghost before = texts(unused@);
            unused.push(name.to_owned());
            assert(texts(unused@) =~= before.push(name@));
        }
        i = i + 1;
    }
    if unused.len() > 0 {
        assert(texts(unused@).len() == unused@.len());
        return Err(unused_error(unused.len(), quoted_list(&sort_texts(&unused)).as_str()));
    }
    if applied.is_empty() {
        return Err(backend(NOTHING_ADAPTED));
    }
    Ok(())
}

proof fn lemma_none_unused(job: Job, n: int, i: int)
    requires
        0 <= i < n <= job.params.len(),
        job.unused(n).len() == 0,
    ensures
        lookup(job.adapted(job.weights.len() as int), job.params[i].0) is Some,
    decreases n,
{
    if i < n - 1 {
        lemma_none_unused(job, n - 1, i);
    }
}

proof fn lemma_none_missing(job: Job, n: int, i: int)
    requires
        0 <= i < n,
        job.missing(n).len() == 0,
    ensures
        !(job.step(i) is Missing),
    decreases n,
{
    if i < n - 1 {
        lemma_none_missing(job, n - 1, i);
    }
}

proof fn lemma_none_refused(job: Job, n: int, i: int)
    requires
        0 <= i < n,
        job.refusal(n) is None,
    ensures
        !(job.step(i) is Refused),
    decreases n,
{
    if i < n - 1 {
        lemma_none_refused(job, n - 1, i);
    }
}

/// No factor of the adapter is left over: where layers are given, each name of
/// the adapter is that of an adapted layer.
pub proof fn no_factor_is_left_over(job: Job, r: Result<LoraLayers>, i: int)
    requires
        job.gives(r),
        r is Ok,
        0 <= i < job.params.len(),
    ensures
        lookup(layer_models(r->Ok_0@), job.params[i].0) is Some,
{
    lemma_none_unused(job, job.params.len() as int, i);
}

/// No layer that a key names is passed over: where layers are given and there
/// are keys, each selected weight is that of an adapted layer.
pub proof fn no_selected_layer_is_passed_over(job: Job, r: Result<LoraLayers>, i: int)
    requires
        job.gives(r),
        r is Ok,
        job.config.lora_parameters.keys is Some,
        0 <= i < job.weights.len(),
    ensures
        before_suffix(job.weights[i].0, ".weight"@) matches Some(path) && selected(
            path,
            job.weights[i].1,
            job.config,
            job.num_blocks,
        ) ==> job.step(i) is Adapted,
{
    lemma_none_missing(job, job.weights.len() as int, i);
    lemma_none_refused(job, job.weights.len() as int, i);
}

/// Nothing else is adapted: each adapted layer is one that is selected and for
/// which the adapter has factors, and it is the layer made of both.
pub proof fn only_selected_layers_are_adapted(job: Job, r: Result<LoraLayers>, i: int) -> (j: int)
    requires
        job.gives(r),
        r is Ok,
        0 <= i < layer_models(r->Ok_0@).len(),
    ensures
        0 <= j < job.weights.len(),
        ({
            let (path, layer) = layer_models(r->Ok_0@)[i];
            &&& before_suffix(job.weights[j].0, ".weight"@) == Some(path)
            &&& selected(path, job.weights[j].1, job.config, job.num_blocks)
            &&& lookup(job.params, path) is Some
            &&& adapt(
                job.weights,
                path,
                job.weights[j].1,
                lookup(job.params, path)->0,
                job.config,
                match job.quant {
                    Some(q) => Some(&q),
                    None => None,
                },
            ) == Ok::<LayerModel, Fault>(layer)
        }),
{
    lemma_adapted_source(job, job.weights.len() as int, i)
}

// ---------------------------------------------------------------------------
// Loading
// ---------------------------------------------------------------------------

/// The factors of the layer at `path` among the tensors of an adapter, where
/// both are there and, if needed, the norms; norms that are not needed are left
/// out.
pub open spec fn group_of(arrays: Seq<(Seq<char>, Tensor)>, path: Seq<char>, expect_dora: bool)
    -> Option<Factors> {
    let magnitude = lookup(arrays, path + ".m"@);
    match (lookup(arrays, path + ".lora_a"@), lookup(arrays, path + ".lora_b"@)) {
        (Some(a), Some(b)) => if expect_dora && magnitude is None {
            None
        } else {
            Some(
                Factors {
                    a,
                    b,
                    magnitude: if expect_dora {
                        magnitude
                    } else {
                        None
                    },
                },
            )
        },
        _ => None,
    }
}

/// What is said of the layer at `path`, for which a tensor is missing.
pub open spec fn complaint(who: Seq<char>, path: Seq<char>, what: Seq<char>) -> Seq<char> {
    who + quoted(path) + what
}

/// What the tensor at `i` is missing, if it is a first factor without its
/// second or, where they are needed, without its norms.
pub open spec fn first_factor_fault(
    arrays: Seq<(Seq<char>, Tensor)>,
    i: int,
    expect_dora: bool,
) -> Option<Seq<char>> {
    match before_suffix(arrays[i].0, ".lora_a"@) {
        Some(path) => if lookup(arrays, path + ".lora_b"@) is None {
            Some(
                complaint(
                    "load_adapters: adapter path "@,
                    path,
                    " has `lora_a` but no matching `lora_b`"@,
                ),
            )
        } else if expect_dora && lookup(arrays, path + ".m"@) is None {
            Some(
                complaint(
                    "load_adapters: DoRA adapter path "@,
                    path,
                    " is missing its magnitude `m`"@,
                ),
            )
        } else {
            None
        },
        None => None,
    }
}

/// What the tensor at `i` is missing, if it is a second factor without its
/// first.
pub open spec fn second_factor_fault(arrays: Seq<(Seq<char>, Tensor)>, i: int) -> Option<
    Seq<char>,
> {
    match before_suffix(arrays[i].0, ".lora_b"@) {
        Some(path) => if lookup(arrays, path + ".lora_a"@) is None {
            Some(
                complaint(
                    "load_adapters: adapter path "@,
                    path,
                    " has `lora_b` but no matching `lora_a`"@,
                ),
            )
        } else {
            None
        },
        None => None,
    }
}

/// Whether the tensor at `i` has what it needs: a first factor its second and
/// perhaps its norms, a second factor its first.
pub open spec fn is_grouped(arrays: Seq<(Seq<char>, Tensor)>, i: int, expect_dora: bool) -> bool {
    first_factor_fault(arrays, i, expect_dora) is None && second_factor_fault(arrays, i) is None
}

/// What the first of the first factors that do not have what they need is
/// missing, among the first `n` tensors.
pub open spec fn earliest_first_fault(
    arrays: Seq<(Seq<char>, Tensor)>,
    n: int,
    expect_dora: bool,
) -> Option<Seq<char>>
    decreases n,
{
    if n <= 0 {
        None
    } else {
        match earliest_first_fault(arrays, n - 1, expect_dora) {
            Some(text) => Some(text),
            None => first_factor_fault(arrays, n - 1, expect_dora),
        }
    }
}

/// What the first of the second factors that do not have what they need is
/// missing, among the first `n` tensors.
pub open spec fn earliest_second_fault(arrays: Seq<(Seq<char>, Tensor)>, n: int) -> Option<
    Seq<char>,
>
    decreases n,
{
    if n <= 0 {
        None
    } else {
        match earliest_second_fault(arrays, n - 1) {
            Some(text) => Some(text),
            None => second_factor_fault(arrays, n - 1),
        }
    }
}

/// Why the tensors do not group, if they do not: first factors are looked at
/// before second ones.
pub open spec fn group_fault(arrays: Seq<(Seq<char>, Tensor)>, expect_dora: bool) -> Option<
    Seq<char>,
> {
    match earliest_first_fault(arrays, arrays.len() as int, expect_dora) {
        Some(text) => Some(text),
        None => earliest_second_fault(arrays, arrays.len() as int),
    }
}

proof fn lemma_first_fault_stays(
    arrays: Seq<(Seq<char>, Tensor)>,
    m: int,
    n: int,
    expect_dora: bool,
)
    requires
        0 <= m <= n,
        earliest_first_fault(arrays, m, expect_dora) is Some,
    ensures
        earliest_first_fault(arrays, n, expect_dora) == earliest_first_fault(
            arrays,
            m,
            expect_dora,
        ),
    decreases n,
{
    if m < n {
        lemma_first_fault_stays(arrays, m, n - 1, expect_dora);
    }
}

proof fn lemma_second_fault_stays(arrays: Seq<(Seq<char>, Tensor)>, m: int, n: int)
    requires
        0 <= m <= n,
        earliest_second_fault(arrays, m) is Some,
    ensures
        earliest_second_fault(arrays, n) == earliest_second_fault(arrays, m),
    decreases n,
{
    if m < n {
        lemma_second_fault_stays(arrays, m, n - 1);
    }
}

/// A first factor is found under its own name.
proof fn lemma_first_factor(arrays: Seq<(Seq<char>, Tensor)>, i: int)
    requires
        keys_distinct(arrays),
        0 <= i < arrays.len(),
        before_suffix(arrays[i].0, ".lora_a"@) is Some,
    ensures
        lookup(arrays, before_suffix(arrays[i].0, ".lora_a"@)->0 + ".lora_a"@) is Some,
{
    let key = arrays[i].0;
    let path = before_suffix(key, ".lora_a"@)->0;
    assert(key =~= path + ".lora_a"@) by {
        assert(key =~= key.take(key.len() - ".lora_a"@.len()) + key.skip(
            key.len() - ".lora_a"@.len(),
        ));
    }
    every_entry_is_found(arrays, i);
}

/// The factors by layer among the first `n` tensors.
pub open spec fn groups(arrays: Seq<(Seq<char>, Tensor)>, n: int, expect_dora: bool) -> Seq<
    (Seq<char>, Factors),
>
    decreases n,
{
    if n <= 0 {
        Seq::empty()
    } else {
        match before_suffix(arrays[n - 1].0, ".lora_a"@) {
            Some(path) => match group_of(arrays, path, expect_dora) {
                Some(f) => groups(arrays, n - 1, expect_dora).push((path, f)),
                None => groups(arrays, n - 1, expect_dora),
            },
            None => groups(arrays, n - 1, expect_dora),
        }
    }
}

/// Whether every tensor has what it needs.
pub open spec fn all_grouped(arrays: Seq<(Seq<char>, Tensor)>, expect_dora: bool) -> bool {
    forall|i: int| 0 <= i < arrays.len() ==> #[trigger] is_grouped(arrays, i, expect_dora)
}

proof fn lemma_group_source(
    arrays: Seq<(Seq<char>, Tensor)>,
    n: int,
    expect_dora: bool,
    i: int,
) -> (j: int)
    requires
        0 <= n,
        0 <= i < groups(arrays, n, expect_dora).len(),
    ensures
        0 <= j < n,
        before_suffix(arrays[j].0, ".lora_a"@) == Some(groups(arrays, n, expect_dora)[i].0),
        group_of(arrays, groups(arrays, n, expect_dora)[i].0, expect_dora) == Some(
            groups(arrays, n, expect_dora)[i].1,
        ),
    decreases n,
{
    match before_suffix(arrays[n - 1].0, ".lora_a"@) {
        Some(path) => match group_of(arrays, path, expect_dora) {
            Some(f) => if i == groups(arrays, n - 1, expect_dora).len() {
                n - 1
            } else {
                lemma_group_source(arrays, n - 1, expect_dora, i)
            },
            None => lemma_group_source(arrays, n - 1, expect_dora, i),
        },
        None => lemma_group_source(arrays, n - 1, expect_dora, i),
    }
}

proof fn lemma_group_new(
    arrays: Seq<(Seq<char>, Tensor)>,
    n: int,
    expect_dora: bool,
    path: Seq<char>,
)
    requires
        keys_distinct(arrays),
        0 <= n < arrays.len(),
        before_suffix(arrays[n].0, ".lora_a"@) == Some(path),
    ensures
        lookup(groups(arrays, n, expect_dora), path) is None,
{
    let g = groups(arrays, n, expect_dora);
    assert forall|i: int| 0 <= i < g.len() implies (#[trigger] g[i]).0 != path by {
        let j = lemma_group_source(arrays, n, expect_dora, i);
        if g[i].0 == path {
            lemma_same_stem(arrays[j].0, arrays[n].0, ".lora_a"@);
            assert(arrays[j].0 != arrays[n].0);
        }
    }
    lemma_no_match(g, path);
}

proof fn lemma_params_pushed(s: Seq<(Seq<char>, AdapterParams)>, k: Seq<char>, v: AdapterParams)
    requires
        keys_distinct(s),
        lookup(factors(s), k) is None,
    ensures
        factors(assigned(s, k, v)) == factors(s).push((k, v@)),
{
    lemma_mapped_lookup(s, |p: AdapterParams| p@, k);
    assert(assigned(s, k, v) =~= s.push((k, v)));
    assert(factors(s.push((k, v))) =~= factors(s).push((k, v@)));
}

proof fn lemma_tensors_distinct(m: &Weights)
    requires
        keys_distinct(m@),
    ensures
        keys_distinct(tensors(m@)),
{
    let t = tensors(m@);
    assert forall|a: int, b: int| 0 <= a < b < t.len() implies (#[trigger] t[a]).0 != (
    #[trigger] t[b]).0 by {
        assert(m@[a].0 != m@[b].0);
    }
}

/// Sorts the tensors of an adapter by layer. Refused where a first factor is
/// without its second, a second without its first, or, for a weight-decomposed
/// adapter, a pair without its norms. Tensors of other names are left out.
pub fn split_adapter_params(arrays: &NameMap<Array>, expect_dora: bool) -> (r: Result<
    NameMap<AdapterParams>,
>)
    ensures
        match r {
            Ok(m) => all_grouped(tensors(arrays@), expect_dora) && factors(m@) == groups(
                tensors(arrays@),
                arrays@.len() as int,
                expect_dora,
            ),
            Err(e) => {
                &&& e is Backend
                &&& !all_grouped(tensors(arrays@), expect_dora)
                &&& group_fault(tensors(arrays@), expect_dora) == Some(e.text())
            },
        },
{
    let n: usize = arrays.len();
    let ghost t = tensors(arrays@);
    let mut out: NameMap<AdapterParams> = NameMap::new();
    let mut i: usize = 0;
    proof {
        lemma_tensors_distinct(arrays);
        assert(factors(out@) =~= groups(t, 0, expect_dora));
    }
    while i < n
        invariant
            n == arrays@.len(),
            0 <= i <= n,
            t == tensors(arrays@),
            keys_distinct(t),
            keys_distinct(out@),
            factors(out@) == groups(t, i as int, expect_dora),
            earliest_first_fault(t, i as int, expect_dora) is None,
            forall|j: int| 0 <= j < i ==> #[trigger] first_factor_fault(t, j, expect_dora) is None,
        decreases n - i,
    {
        let key = arrays.name_at(i);
        assert(t[i as int].0 == key@);
        match strip_suffix(key, ".lora_a") {
            Some(path) => {
                let a = get_dup(arrays, concat(path, ".lora_a").as_str());
                let b = get_dup(arrays, concat(path, ".lora_b").as_str());
                let norms = get_dup(arrays, concat(path, ".m").as_str());
                proof {
                    lemma_first_factor(t, i as int);
                }
                match (a, b) {
                    (Some(a), Some(b)) => {
                        if expect_dora && norms.is_none() {
                            proof {
                                lemma_first_fault_stays(t, i + 1, n as int, expect_dora);
                                assert(!is_grouped(t, i as int, expect_dora));
                            }
                            return Err(
                                refuse_group(
                                    "load_adapters: DoRA adapter path ",
                                    quoted_text(path).as_str(),
                                    " is missing its magnitude `m`",
                                ),
                            );
                        }
                        let magnitude: Option<Array> = if expect_dora {
                            norms
                        } else {
                            None
                        };
                        let params = AdapterParams { lora_a: a, lora_b: b, magnitude };
                        proof {
                            lemma_group_new(t, i as int, expect_dora, path@);
                            lemma_params_pushed(out@, path@, params);
                        }
                        out.insert(path, params);
                    },
                    _ => {
                        proof {
                            lemma_first_fault_stays(t, i + 1, n as int, expect_dora);
                            assert(!is_grouped(t, i as int, expect_dora));
                        }
                        return Err(
                            refuse_group(
                                "load_adapters: adapter path ",
                                quoted_text(path).as_str(),
                                " has `lora_a` but no matching `lora_b`",
                            ),
                        );
                    },
                }
            },
            None => {},
        }
        i = i + 1;
    }
    let mut k: usize = 0;
    while k < n
        invariant
            n == arrays@.len(),
            0 <= k <= n,
            t == tensors(arrays@),
            earliest_first_fault(t, n as int, expect_dora) is None,
            earliest_second_fault(t, k as int) is None,
            forall|j: int| 0 <= j < n ==> #[trigger] first_factor_fault(t, j, expect_dora) is None,
            forall|j: int| 0 <= j < k ==> #[trigger] second_factor_fault(t, j) is None,
        decreases n - k,
    {
        let key = arrays.name_at(k);
        assert(t[k as int].0 == key@);
        match strip_suffix(key, ".lora_b") {
            Some(path) => {
                if get_dup(arrays, concat(path, ".lora_a").as_str()).is_none() {
                    proof {
                        lemma_second_fault_stays(t, k + 1, n as int);
                        assert(!is_grouped(t, k as int, expect_dora));
                    }
                    return Err(
                        refuse_group(
                            "load_adapters: adapter path ",
                            quoted_text(path).as_str(),
                            " has `lora_b` but no matching `lora_a`",
                        ),
                    );
                }
            },
            None => {},
        }
        k = k + 1;
    }
    Ok(out)
}

/// The error of a layer of whose path `shown` is what is shown, and of which
/// `what` is said.
pub fn refuse_group(who: &str, shown: &str, what: &str) -> (e: Error)
    ensures
        e is Backend,
        e.text() == who@ + shown@ + what@,
{
    let text = concat(concat(who, shown).as_str(), what);
    backend(text.as_str())
}

/// Adapts the layers of a model by the tensors of an adapter. Refused where
/// the configuration is not that of an adapter, its tensors do not group, or
/// they do not fit the model.
pub fn load_adapters(
    base_weights: &Weights,
    config: &LoraConfig,
    adapter_arrays: &NameMap<Array>,
    quant: Option<&PerLayerQuantization>,
    num_blocks: i32,
) -> (r: Result<LoraLayers>)
    ensures
        ({
            let arrays = tensors(adapter_arrays@);
            if config_refusal(*config) is Some {
                &&& r is Err && r->Err_0 is Backend
                &&& config_refusal(*config) == Some(r->Err_0.text())
            } else if !all_grouped(arrays, config.is_dora()) {
                &&& r is Err && r->Err_0 is Backend
                &&& group_fault(arrays, config.is_dora()) == Some(r->Err_0.text())
            } else {
                job_of(
                    base_weights,
                    config,
                    groups(arrays, arrays.len() as int, config.is_dora()),
                    quant,
                    num_blocks,
                ).gives(r)
            }
        }),
{
    match check_config(config) {
        Ok(_) => {},
        Err(e) => {
            return Err(e);
        },
    }
    match split_adapter_params(adapter_arrays, config.is_dora()) {
        Ok(params) => linear_to_lora_layers(base_weights, config, &params, quant, num_blocks),
        Err(e) => Err(e),
    }
}

} // verus!
