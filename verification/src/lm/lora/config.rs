//! What an adapter's configuration says.
use vstd::prelude::*;
use vstd::utf8::{decode_utf8, valid_utf8};

use crate::error::{backend, Error, Result};
use crate::scalar::F32;
use crate::text::{concat, decimal, decimal_text, same_text, signed_decimal, signed_text};

verus! {

/// The scale where the configuration gives none, as a bit pattern: `20`.
pub const DEFAULT_LORA_SCALE: u32 = 0x41a0_0000;

/// The rank where the configuration gives none.
pub const DEFAULT_LORA_RANK: i32 = 8;

/// The number of adapted blocks where the configuration gives none.
pub const DEFAULT_NUM_LAYERS: i32 = 16;

/// The most bytes that the adapter's tensors may have.
pub const MAX_ADAPTER_SAFETENSORS_BYTES: u64 = 0x8000_0000;

/// The most bytes that the adapter's configuration may have.
pub const MAX_CONFIG_BYTES: u64 = 0x10_0000;

/// How a model was tuned.
#[derive(Clone, Copy, Debug, PartialEq, Eq, Structural)]
pub enum FineTuneType {
    /// Factors of low rank.
    Lora,
    /// Factors of low rank and the norms of the rows.
    Dora,
    /// All weights; this is no adapter.
    Full,
}

impl Default for FineTuneType {
    fn default() -> (r: FineTuneType)
        ensures
            r == FineTuneType::Lora,
    {
        FineTuneType::Lora
    }
}

impl FineTuneType {
    /// The name in a configuration.
    pub open spec fn spec_name(self) -> &'static str {
        match self {
            FineTuneType::Lora => "lora",
            FineTuneType::Dora => "dora",
            FineTuneType::Full => "full",
        }
    }

    /// The name in a configuration.
    #[verifier::when_used_as_spec(spec_name)]
    pub fn name(self) -> (s: &'static str)
        ensures
            s == self.spec_name(),
    {
        match self {
            FineTuneType::Lora => "lora",
            FineTuneType::Dora => "dora",
            FineTuneType::Full => "full",
        }
    }

    /// The way of tuning that has the given name.
    pub fn from_name(name: &str) -> (r: Option<FineTuneType>)
        ensures
            match r {
                Some(t) => name@ == t.name()@,
                None => forall|t: FineTuneType| name@ != (#[trigger] t.name())@,
            },
    {
        if same_text(name, "lora") {
            Some(FineTuneType::Lora)
        } else if same_text(name, "dora") {
            Some(FineTuneType::Dora)
        } else if same_text(name, "full") {
            Some(FineTuneType::Full)
        } else {
            None
        }
    }
}

/// No two ways of tuning have the same name.
pub proof fn tuning_names_differ(a: FineTuneType, b: FineTuneType)
    ensures
        a.name()@ == b.name()@ ==> a == b,
{
    reveal_strlit("lora");
    reveal_strlit("dora");
    reveal_strlit("full");
    let (x, y) = (a.name()@, b.name()@);
    if x == y {
        assert(x[0] == y[0]);
    }
}

/// The factor of the low-rank term.
#[derive(Clone, Copy, Debug, PartialEq, Eq, Structural)]
pub enum Scale {
    /// The number itself.
    Literal(F32),
    /// `alpha / rank`.
    Ratio { alpha: F32, rank: u32 },
}

/// The settings of the low-rank term.
#[derive(Clone, Debug)]
pub struct LoraParameters {
    /// The rank of the factors.
    pub rank: i32,
    /// The scale, used where there is no `alpha`.
    pub scale: Option<F32>,
    /// The numerator of the scale `alpha / rank`.
    pub alpha: Option<F32>,
    /// The layers to adapt by the ends of their paths; all linear layers where
    /// none are given.
    pub keys: Option<Vec<String>>,
    /// The dropout in training; it has no effect here.
    pub dropout: Option<F32>,
}

impl Default for LoraParameters {
    fn default() -> (p: LoraParameters)
        ensures
            p.rank == DEFAULT_LORA_RANK,
            p.scale is None,
            p.alpha is None,
            p.keys is None,
            p.dropout is None,
    {
        LoraParameters { rank: DEFAULT_LORA_RANK, scale: None, alpha: None, keys: None, dropout: None }
    }
}

impl LoraParameters {
    /// The scale: `alpha / rank` where there is an `alpha` and the rank is
    /// positive, else the given scale, else the default.
    pub open spec fn spec_resolved_scale(&self) -> Scale {
        match (self.alpha, self.scale) {
            (Some(alpha), _) if self.rank > 0 => Scale::Ratio { alpha, rank: self.rank as u32 },
            (_, Some(s)) => Scale::Literal(s),
            (_, None) => Scale::Literal(F32 { bits: DEFAULT_LORA_SCALE }),
        }
    }

    /// The scale: `alpha / rank` where there is an `alpha` and the rank is
    /// positive, else the given scale, else the default.
    #[verifier::when_used_as_spec(spec_resolved_scale)]
    pub fn resolved_scale(&self) -> (s: Scale)
        ensures
            s == self.spec_resolved_scale(),
    {
        match self.alpha {
            Some(alpha) => {
                if self.rank > 0 {
                    return Scale::Ratio { alpha, rank: self.rank as u32 };
                }
            },
            None => {},
        }
        match self.scale {
            Some(s) => Scale::Literal(s),
            None => Scale::Literal(F32 { bits: DEFAULT_LORA_SCALE }),
        }
    }
}

/// An `alpha` wins over a given scale, for every positive rank.
pub proof fn alpha_wins(p: LoraParameters)
    requires
        p.alpha is Some,
        p.rank > 0,
    ensures
        p.resolved_scale() == (Scale::Ratio { alpha: p.alpha->0, rank: p.rank as u32 }),
{
}

/// An adapter's configuration.
#[derive(Clone, Debug)]
pub struct LoraConfig {
    /// How the model was tuned.
    pub fine_tune_type: FineTuneType,
    /// How many blocks at the end of the model are adapted; all of them where
    /// this is not positive.
    pub num_layers: i32,
    /// The settings of the low-rank term.
    pub lora_parameters: LoraParameters,
    /// A second way of asking for weight decomposition.
    pub use_dora: bool,
}

/// The fields of a configuration as they were given, each of which may be
/// absent.
#[derive(Debug)]
pub struct ConfigFields {
    pub fine_tune_type: Option<String>,
    pub num_layers: Option<i32>,
    pub use_dora: Option<bool>,
    pub rank: Option<i32>,
    pub scale: Option<F32>,
    pub alpha: Option<F32>,
    pub keys: Option<Vec<String>>,
    pub dropout: Option<F32>,
}

impl LoraConfig {
    /// The configuration of the given fields, with the defaults in place of
    /// those that are absent. Refused where the way of tuning is unknown.
    pub fn from_fields(f: ConfigFields) -> (r: Result<LoraConfig>)
        ensures
            match r {
                Ok(c) => {
                    &&& match f.fine_tune_type {
                        Some(name) => name@ == c.fine_tune_type.name()@,
                        None => c.fine_tune_type == FineTuneType::Lora,
                    }
                    &&& c.num_layers == match f.num_layers {
                        Some(n) => n,
                        None => DEFAULT_NUM_LAYERS,
                    }
                    &&& c.use_dora == (f.use_dora == Some(true))
                    &&& c.lora_parameters.rank == match f.rank {
                        Some(n) => n,
                        None => DEFAULT_LORA_RANK,
                    }
                    &&& c.lora_parameters.scale == f.scale
                    &&& c.lora_parameters.alpha == f.alpha
                    &&& c.lora_parameters.keys == f.keys
                    &&& c.lora_parameters.dropout == f.dropout
                },
                Err(e) => {
                    &&& e is Backend
                    &&& f.fine_tune_type is Some
                    &&& forall|t: FineTuneType| f.fine_tune_type->0@ != (#[trigger] t.name())@
                },
            },
    {
        let fine_tune_type = match &f.fine_tune_type {
            None => FineTuneType::Lora,
            Some(name) => match FineTuneType::from_name(name.as_str()) {
                Some(t) => t,
                None => {
                    return Err(backend("invalid adapter_config.json: unknown fine_tune_type"));
                },
            },
        };
        let num_layers: i32 = match f.num_layers {
            Some(n) => n,
            None => DEFAULT_NUM_LAYERS,
        };
        let rank: i32 = match f.rank {
            Some(n) => n,
            None => DEFAULT_LORA_RANK,
        };
        let use_dora: bool = match f.use_dora {
            Some(d) => d,
            None => false,
        };
        Ok(
            LoraConfig {
                fine_tune_type,
                num_layers,
                lora_parameters: LoraParameters {
                    rank,
                    scale: f.scale,
                    alpha: f.alpha,
                    keys: f.keys,
                    dropout: f.dropout,
                },
                use_dora,
            },
        )
    }

    /// Whether the adapter is weight-decomposed: by either way of asking.
    pub open spec fn spec_is_dora(&self) -> bool {
        self.fine_tune_type == FineTuneType::Dora || self.use_dora
    }

    /// Whether the adapter is weight-decomposed.
    #[verifier::when_used_as_spec(spec_is_dora)]
    pub fn is_dora(&self) -> (r: bool)
        ensures
            r == self.spec_is_dora(),
    {
        self.fine_tune_type == FineTuneType::Dora || self.use_dora
    }

    /// The scale of the low-rank term.
    pub fn scale(&self) -> (s: Scale)
        ensures
            s == self.lora_parameters.resolved_scale(),
    {
        self.lora_parameters.resolved_scale()
    }

    /// The rank of the factors.
    pub fn rank(&self) -> (r: i32)
        ensures
            r == self.lora_parameters.rank,
    {
        self.lora_parameters.rank
    }
}

/// Why a configuration is not that of an adapter, if it is not: its tuning is
/// of all weights, or its rank is not positive.
pub open spec fn config_refusal(config: LoraConfig) -> Option<Seq<char>> {
    if config.fine_tune_type == FineTuneType::Full {
        Some(
            "load_adapters: fine_tune_type \"full\" is a full-weight fine-tune, not an adapter; merge it at the weight-map level via lm::load::load_weights instead"@,
        )
    } else if config.lora_parameters.rank <= 0 {
        Some(
            "load_adapters: adapter rank must be > 0, got "@ + signed_decimal(
                config.lora_parameters.rank as int,
            ),
        )
    } else {
        None
    }
}

/// Checks that a configuration is that of an adapter: its tuning is not of all
/// weights and its rank is positive.
pub fn check_config(config: &LoraConfig) -> (r: Result<()>)
    ensures
        match config_refusal(*config) {
            Some(text) => r is Err && r->Err_0 is Backend && r->Err_0.text() == text,
            None => r is Ok,
        },
{
    if config.fine_tune_type == FineTuneType::Full {
        return Err(
            backend(
                "load_adapters: fine_tune_type \"full\" is a full-weight fine-tune, not an adapter; merge it at the weight-map level via lm::load::load_weights instead",
            ),
        );
    }
    if config.rank() <= 0 {
        let text = concat(
            "load_adapters: adapter rank must be > 0, got ",
            signed_text(config.rank()).as_str(),
        );
        return Err(backend(text.as_str()));
    }
    Ok(())
}

/// Why the file of an adapter's tensors is not read, if it is not: it is not a
/// regular file, or it is beyond its budget.
pub open spec fn tensors_refusal(path: Seq<char>, is_file: bool, len: u64) -> Option<Seq<char>> {
    if !is_file {
        Some("load_adapters: "@ + path + " is not a regular file; refusing to load"@)
    } else if len > MAX_ADAPTER_SAFETENSORS_BYTES {
        Some(
            "load_adapters: "@ + path + " is "@ + decimal(len as nat) + " bytes, exceeding the "@
                + decimal(MAX_ADAPTER_SAFETENSORS_BYTES as nat)
                + "-byte adapter budget; refusing to load"@,
        )
    } else {
        None
    }
}

/// Checks what is known of the file of an adapter's tensors before it is read:
/// it is a regular file within its budget. `path` is what the file is called.
pub fn check_adapter_safetensors(path: &str, is_file: bool, len: u64) -> (r: Result<()>)
    ensures
        match tensors_refusal(path@, is_file, len) {
            Some(text) => r is Err && r->Err_0 is Backend && r->Err_0.text() == text,
            None => r is Ok,
        },
{
    if !is_file {
        let mut text = concat("load_adapters: ", path);
        text.append(" is not a regular file; refusing to load");
        return Err(backend(text.as_str()));
    }
    if len > MAX_ADAPTER_SAFETENSORS_BYTES {
        let mut text = concat("load_adapters: ", path);
        text.append(" is ");
        text.append(decimal_text(len).as_str());
        text.append(" bytes, exceeding the ");
        text.append(decimal_text(MAX_ADAPTER_SAFETENSORS_BYTES).as_str());
        text.append("-byte adapter budget; refusing to load");
        return Err(backend(text.as_str()));
    }
    Ok(())
}

/// Why bytes are not UTF-8, in words.
pub uninterp spec fn utf8_complaint(bytes: Seq<u8>) -> Seq<char>;

/// The text of `bytes`, where they are UTF-8, and else why they are not. Stands
/// for `String::from_utf8`, of whose error, which depends on the bytes alone,
/// only the words are kept that it is shown with; what they are is left unsaid.
#[verifier::external_body]
fn utf8_text(bytes: Vec<u8>) -> (r: std::result::Result<String, String>)
    ensures
        r is Ok <==> valid_utf8(bytes@),
        r matches Ok(text) ==> text@ == decode_utf8(bytes@),
        r matches Err(why) ==> why@ == utf8_complaint(bytes@),
{
    match String::from_utf8(bytes) {
        Ok(text) => Ok(text),
        Err(e) => Err(e.to_string()),
    }
}

/// Why a file of which `bytes` were read is no configuration of an adapter, if
/// it is not: it is not a regular file, it is beyond its budget, or its bytes
/// are not UTF-8, for the reason `why`.
pub open spec fn text_refusal(
    path: Seq<char>,
    is_file: bool,
    bytes: Seq<u8>,
    why: Seq<char>,
) -> Option<Seq<char>> {
    if !is_file {
        Some("load_adapters: "@ + path + " is not a regular file; refusing to read"@)
    } else if bytes.len() > MAX_CONFIG_BYTES {
        Some(
            "load_adapters: "@ + path + " exceeds the "@ + decimal(MAX_CONFIG_BYTES as nat)
                + "-byte cap; refusing to read"@,
        )
    } else if !valid_utf8(bytes) {
        Some("load_adapters: "@ + path + " is not valid UTF-8: "@ + why)
    } else {
        None
    }
}

/// What comes of reading the text of an adapter's configuration, where `came`
/// is what came of taking its bytes for UTF-8.
pub fn config_text(path: &str, came: std::result::Result<String, String>) -> (r: Result<String>)
    ensures
        match came {
            Ok(text) => r == Ok::<String, Error>(text),
            Err(why) => {
                &&& r is Err && r->Err_0 is Backend
                &&& r->Err_0.text() == "load_adapters: "@ + path@ + " is not valid UTF-8: "@ + why@
            },
        },
{
    match came {
        Ok(text) => Ok(text),
        Err(why) => {
            let mut text = concat("load_adapters: ", path);
            text.append(" is not valid UTF-8: ");
            text.append(why.as_str());
            Err(backend(text.as_str()))
        },
    }
}

/// The text of an adapter's configuration in the file that is called `path`, of
/// which it is known whether it is a regular one and of which `bytes` were read,
/// up to one more than its budget. Refused for any other file, beyond the
/// budget, and where the bytes are not UTF-8.
pub fn read_bounded_adapter_config(path: &str, is_file: bool, bytes: Vec<u8>) -> (r: Result<String>)
    ensures
        match text_refusal(path@, is_file, bytes@, utf8_complaint(bytes@)) {
            Some(text) => r is Err && r->Err_0 is Backend && r->Err_0.text() == text,
            None => r is Ok && r->Ok_0@ == decode_utf8(bytes@),
        },
{
    if !is_file {
        let mut text = concat("load_adapters: ", path);
        text.append(" is not a regular file; refusing to read");
        return Err(backend(text.as_str()));
    }
    if bytes.len() as u64 > MAX_CONFIG_BYTES {
        let mut text = concat("load_adapters: ", path);
        text.append(" exceeds the ");
        text.append(decimal_text(MAX_CONFIG_BYTES).as_str());
        text.append("-byte cap; refusing to read");
        return Err(backend(text.as_str()));
    }
    config_text(path, utf8_text(bytes))
}

} // verus!
