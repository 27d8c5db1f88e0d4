//! From the tokens of a batch of texts to their embeddings.
use vstd::prelude::*;

use crate::array::{leaf, outcome, Array, Op, Tensor};
use crate::dtype::Dtype;
use crate::embeddings::pool::{pool, pooled, poolable, PoolingStrategy};
use crate::error::{shape_mismatch, Error, Result};
use crate::scalar::F32;
use crate::text::{decimal, with_two};

verus! {

/// How texts are embedded.
#[derive(Clone, Copy, Debug)]
pub struct EncodeConfig {
    /// How the vectors of a text become one.
    pub strategy: PoolingStrategy,
    /// Whether embeddings are brought to length one.
    pub normalize: bool,
    /// Whether the tokenizer adds its special tokens.
    pub add_special_tokens: bool,
    /// The most tokens of a text; what is behind them is cut off.
    pub max_length: Option<usize>,
    /// The token that fills up shorter texts. No embedding depends on it.
    pub pad_token_id: u32,
    /// The width of the embeddings.
    pub dimension: Option<usize>,
    /// Whether embeddings are brought to mean zero and variance one.
    pub apply_layer_norm: bool,
    /// Whether embeddings are divided by their root mean square, where the
    /// former is not asked for.
    pub apply_rms_norm: bool,
}

/// The settings where nothing else is asked for.
pub open spec fn default_config() -> EncodeConfig {
    EncodeConfig {
        strategy: PoolingStrategy::Mean,
        normalize: true,
        add_special_tokens: true,
        max_length: Some(512),
        pad_token_id: 0,
        dimension: None,
        apply_layer_norm: false,
        apply_rms_norm: false,
    }
}

impl Default for EncodeConfig {
    fn default() -> (c: EncodeConfig)
        ensures
            c == default_config(),
    {
        EncodeConfig {
            strategy: PoolingStrategy::Mean,
            normalize: true,
            add_special_tokens: true,
            max_length: Some(512),
            pad_token_id: 0,
            dimension: None,
            apply_layer_norm: false,
            apply_rms_norm: false,
        }
    }
}

impl EncodeConfig {
    /// The settings where nothing else is asked for.
    pub fn new() -> (c: EncodeConfig)
        ensures
            c == default_config(),
    {
        EncodeConfig::default()
    }

    pub fn strategy(self, v: PoolingStrategy) -> (c: EncodeConfig)
        ensures
            c == (EncodeConfig { strategy: v, ..self }),
    {
        EncodeConfig { strategy: v, ..self }
    }

    pub fn normalize(self, v: bool) -> (c: EncodeConfig)
        ensures
            c == (EncodeConfig { normalize: v, ..self }),
    {
        EncodeConfig { normalize: v, ..self }
    }

    pub fn add_special_tokens(self, v: bool) -> (c: EncodeConfig)
        ensures
            c == (EncodeConfig { add_special_tokens: v, ..self }),
    {
        EncodeConfig { add_special_tokens: v, ..self }
    }

    pub fn max_length(self, v: Option<usize>) -> (c: EncodeConfig)
        ensures
            c == (EncodeConfig { max_length: v, ..self }),
    {
        EncodeConfig { max_length: v, ..self }
    }

    pub fn pad_token_id(self, v: u32) -> (c: EncodeConfig)
        ensures
            c == (EncodeConfig { pad_token_id: v, ..self }),
    {
        EncodeConfig { pad_token_id: v, ..self }
    }

    pub fn dimension(self, v: Option<usize>) -> (c: EncodeConfig)
        ensures
            c == (EncodeConfig { dimension: v, ..self }),
    {
        EncodeConfig { dimension: v, ..self }
    }

    pub fn apply_layer_norm(self, v: bool) -> (c: EncodeConfig)
        ensures
            c == (EncodeConfig { apply_layer_norm: v, ..self }),
    {
        EncodeConfig { apply_layer_norm: v, ..self }
    }

    pub fn apply_rms_norm(self, v: bool) -> (c: EncodeConfig)
        ensures
            c == (EncodeConfig { apply_rms_norm: v, ..self }),
    {
        EncodeConfig { apply_rms_norm: v, ..self }
    }
}

/// How many tokens of a text are taken.
pub open spec fn taken(len: nat, max_length: Option<usize>) -> nat {
    match max_length {
        Some(cap) if len > cap => cap as nat,
        _ => len,
    }
}

/// The length of the longest text.
pub open spec fn longest(rows: Seq<Vec<u32>>, max_length: Option<usize>) -> nat
    decreases rows.len(),
{
    if rows.len() == 0 {
        0
    } else {
        let n = taken(rows.last()@.len(), max_length);
        let m = longest(rows.drop_last(), max_length);
        if m < n {
            n
        } else {
            m
        }
    }
}

/// The tokens of all texts, each filled up to `len` with `pad`.
pub open spec fn padded_ids(rows: Seq<Vec<u32>>, len: nat, max_length: Option<usize>, pad: u32)
    -> Seq<u64> {
    Seq::new(
        rows.len() * len,
        |k: int|
            {
                let row = rows[k / len as int]@;
                let c = k % len as int;
                if c < taken(row.len(), max_length) {
                    row[c] as u64
                } else {
                    pad as u64
                }
            },
    )
}

/// One for each token of a text and zero for each that fills it up.
pub open spec fn mask_bits(rows: Seq<Vec<u32>>, len: nat, max_length: Option<usize>) -> Seq<u64> {
    Seq::new(
        rows.len() * len,
        |k: int|
            {
                let row = rows[k / len as int]@;
                if k % (len as int) < taken(row.len(), max_length) {
                    F32::one().bits as u64
                } else {
                    0u64
                }
            },
    )
}

/// The tokens of a batch as a matrix.
pub open spec fn ids_of(rows: Seq<Vec<u32>>, max_length: Option<usize>, pad: u32) -> Option<
    Tensor,
> {
    let len = longest(rows, max_length);
    leaf(
        Op::Data,
        seq![rows.len() as usize, len as usize],
        Dtype::U32,
        padded_ids(rows, len, max_length, pad),
    )
}

/// The marks of a batch as a matrix.
pub open spec fn mask_of(rows: Seq<Vec<u32>>, max_length: Option<usize>) -> Option<Tensor> {
    let len = longest(rows, max_length);
    leaf(
        Op::Data,
        seq![rows.len() as usize, len as usize],
        Dtype::F32,
        mask_bits(rows, len, max_length),
    )
}

proof fn lemma_longest(rows: Seq<Vec<u32>>, max_length: Option<usize>, i: int)
    requires
        0 <= i < rows.len(),
    ensures
        taken(rows[i]@.len(), max_length) <= longest(rows, max_length),
    decreases rows.len(),
{
    if i < rows.len() - 1 {
        lemma_longest(rows.drop_last(), max_length, i);
    }
}

fn taken_len(len: usize, max_length: Option<usize>) -> (n: usize)
    ensures
        n == taken(len as nat, max_length),
{
    match max_length {
        Some(cap) => if len > cap {
            cap
        } else {
            len
        },
        None => len,
    }
}

/// Whether `r` is a batch by its tokens and its marks, each text cut off at
/// `max_length` and filled up to the length of the longest. Refused where the
/// places cannot be counted or named.
pub open spec fn padded_to(
    rows: Seq<Vec<u32>>,
    max_length: Option<usize>,
    pad: u32,
    r: Result<(Array, Array, usize)>,
) -> bool {
    match r {
        Ok((ids, mask, len)) => {
            &&& len == longest(rows, max_length)
            &&& rows.len() * len <= usize::MAX
            &&& ids_of(rows, max_length, pad) == Some(ids@)
            &&& mask_of(rows, max_length) == Some(mask@)
        },
        Err(Error::ShapeMismatch { message }) => {
            &&& rows.len() * longest(rows, max_length) > usize::MAX
            &&& message@ == "encode: batch "@ + decimal(rows.len()) + " * seq_len "@ + decimal(
                longest(rows, max_length),
            ) + " overflows usize"@
        },
        Err(e) => e is Backend && rows.len() * longest(rows, max_length) <= usize::MAX && ids_of(
            rows,
            max_length,
            pad,
        ) is None,
    }
}

/// A batch, given by the tokens of its texts, as matrices of tokens and marks.
pub fn pad_rows(rows: &Vec<Vec<u32>>, max_length: Option<usize>, pad: u32) -> (r: Result<
    (Array, Array, usize),
>)
    ensures
        padded_to(rows@, max_length, pad, r),
{
    let batch: usize = rows.len();
    let mut len: usize = 0;
    let mut i: usize = 0;
    assert(rows@.take(0) =~= Seq::<Vec<u32>>::empty());
    while i < batch
        invariant
            batch == rows@.len(),
            0 <= i <= batch,
            len == longest(rows@.take(i as int), max_length),
        decreases batch - i,
    {
        let n: usize = taken_len(rows[i].len(), max_length);
        assert(rows@.take(i + 1).drop_last() =~= rows@.take(i as int));
        if len < n {
            len = n;
        }
        i = i + 1;
    }
    assert(rows@.take(batch as int) =~= rows@);
    if batch.checked_mul(len).is_none() {
        let text = with_two("encode: batch ", batch, " * seq_len ", len, " overflows usize");
        return Err(shape_mismatch(text.as_str()));
    }
    let ghost all_ids = padded_ids(rows@, len as nat, max_length, pad);
    let ghost all_marks = mask_bits(rows@, len as nat, max_length);
    let mut ids: Vec<u64> = Vec::new();
    let mut marks: Vec<u64> = Vec::new();
    let mut y: usize = 0;
    while y < batch
        invariant
            batch == rows@.len(),
            0 <= y <= batch,
            batch * len <= usize::MAX,
            len == longest(rows@, max_length),
            all_ids == padded_ids(rows@, len as nat, max_length, pad),
            all_marks == mask_bits(rows@, len as nat, max_length),
            ids@.len() == y * len,
            marks@.len() == y * len,
            forall|k: int| 0 <= k < y * len ==> ids@[k] == all_ids[k],
            forall|k: int| 0 <= k < y * len ==> marks@[k] == all_marks[k],
        decreases batch - y,
    {
        let row = &rows[y];
        let n: usize = taken_len(row.len(), max_length);
        let mut x: usize = 0;
        while x < len
            invariant
                batch == rows@.len(),
                0 <= y < batch,
                0 <= x <= len,
                *row == rows@[y as int],
                n == taken(row@.len(), max_length),
                n <= row@.len(),
                all_ids == padded_ids(rows@, len as nat, max_length, pad),
                all_marks == mask_bits(rows@, len as nat, max_length),
                ids@.len() == y * len + x,
                marks@.len() == y * len + x,
                forall|k: int| 0 <= k < y * len + x ==> ids@[k] == all_ids[k],
                forall|k: int| 0 <= k < y * len + x ==> marks@[k] == all_marks[k],
            decreases len - x,
        {
            proof {
                let k = y * len + x;
                vstd::arithmetic::div_mod::lemma_fundamental_div_mod_converse(
                    k,
                    len as int,
                    y as int,
                    x as int,
                );
                assert(k < batch * len) by (nonlinear_arith)
                    requires
                        k == y * len + x,
                        x < len,
                        y + 1 <= batch,
                ;
            }
            if x < n {
                ids.push(row[x] as u64);
                marks.push(F32::one().bits as u64);
            } else {
                ids.push(pad as u64);
                marks.push(0);
            }
            x = x + 1;
        }
        proof {
            assert((y + 1) * len == y * len + len) by (nonlinear_arith);
        }
        y = y + 1;
    }
    assert(ids@ =~= all_ids);
    assert(marks@ =~= all_marks);
    let mut shape: Vec<usize> = Vec::new();
    shape.push(batch);
    shape.push(len);
    let mut shape2: Vec<usize> = Vec::new();
    shape2.push(batch);
    shape2.push(len);
    assert(shape@ =~= seq![batch, len]);
    assert(shape2@ =~= seq![batch, len]);
    let a = Array::build_leaf(Op::Data, shape, Dtype::U32, ids)?;
    let b = Array::build_leaf(Op::Data, shape2, Dtype::F32, marks)?;
    Ok((a, b, len))
}

/// What a model gives for a batch.
pub struct EmbeddingOutput {
    /// A vector for each place of each text.
    pub last_hidden_state: Array,
}

/// A model that embeds texts; one for each architecture.
pub trait EmbeddingModel {
    /// The vectors of a batch by its tokens and marks.
    fn forward(&self, input_ids: &Array, attention_mask: &Array) -> Result<EmbeddingOutput>;
}

/// The embedding of a batch for which the model gives `hidden`.
pub open spec fn embedded(hidden: Tensor, mask: Tensor, cfg: EncodeConfig) -> Option<Tensor> {
    pooled(
        hidden,
        mask,
        cfg.strategy,
        cfg.normalize,
        cfg.dimension,
        cfg.apply_layer_norm,
        cfg.apply_rms_norm,
    )
}

/// Whether `r` is the embedding of a batch for which the model gave `out`: its
/// error, or what it gave, pooled.
pub open spec fn settled(
    out: Result<EmbeddingOutput>,
    mask: Tensor,
    cfg: EncodeConfig,
    r: Result<Array>,
) -> bool {
    match out {
        Ok(o) => outcome(r) == embedded(o.last_hidden_state@, mask, cfg) && match r {
            Ok(_) => true,
            Err(e) => if poolable(o.last_hidden_state@, mask) {
                e is Backend
            } else {
                e is ShapeMismatch
            },
        },
        Err(e) => r == Err::<Array, Error>(e),
    }
}

/// Whether `r` may be the embedding of a batch, given by the tokens of its
/// texts: what the model gave for their matrix and their marks, pooled.
pub open spec fn encoded<M: EmbeddingModel>(
    model: &M,
    rows: Seq<Vec<u32>>,
    cfg: EncodeConfig,
    r: Result<Array>,
) -> bool {
    &&& rows.len() * longest(rows, cfg.max_length) > usize::MAX ==> r is Err
        && r->Err_0 is ShapeMismatch
    &&& rows.len() * longest(rows, cfg.max_length) <= usize::MAX && mask_of(
        rows,
        cfg.max_length,
    ) is None ==> r is Err && r->Err_0 is Backend
    &&& rows.len() * longest(rows, cfg.max_length) <= usize::MAX && mask_of(
        rows,
        cfg.max_length,
    ) is Some ==> exists|ids: Array, mask: Array, out: Result<EmbeddingOutput>|
        ids_of(rows, cfg.max_length, cfg.pad_token_id) == Some(ids@) && mask_of(
            rows,
            cfg.max_length,
        ) == Some(mask@) && #[trigger] call_ensures(M::forward, (model, &ids, &mask), out)
            && settled(out, mask@, cfg, r)
}

/// The embeddings of a batch of texts, given by their tokens.
pub fn encode_rows<M: EmbeddingModel>(model: &M, rows: &Vec<Vec<u32>>, cfg: &EncodeConfig) -> (r:
    Result<Array>)
    ensures
        encoded(model, rows@, *cfg, r),
{
    let (ids, mask, _) = match pad_rows(rows, cfg.max_length, cfg.pad_token_id) {
        Ok(batch) => batch,
        Err(e) => {
            return Err(e);
        },
    };
    let out = model.forward(&ids, &mask);
    let ghost given = out;
    let r = match out {
        Ok(output) => pool(
            &output.last_hidden_state,
            &mask,
            cfg.strategy,
            cfg.normalize,
            cfg.dimension,
            cfg.apply_layer_norm,
            cfg.apply_rms_norm,
        ),
        Err(e) => Err(e),
    };
    assert(call_ensures(M::forward, (model, &ids, &mask), given));
    assert(settled(given, mask@, *cfg, r));
    r
}

/// Turns texts into tokens; one for each vocabulary.
pub trait Tokenizer {
    /// The tokens of `text`, with the special tokens of the vocabulary where
    /// they are asked for.
    fn encode(&self, text: &str, add_special_tokens: bool) -> Result<Vec<u32>>;
}

/// Whether the tokenizer may give `rows` for the first of the texts.
pub open spec fn tokens_of<T: Tokenizer>(
    tokenizer: &T,
    texts: Seq<&str>,
    add_special_tokens: bool,
    rows: Seq<Vec<u32>>,
) -> bool {
    &&& rows.len() <= texts.len()
    &&& forall|i: int|
        0 <= i < rows.len() ==> call_ensures(
            T::encode,
            (tokenizer, texts[i], add_special_tokens),
            Ok(#[trigger] rows[i]),
        )
}

/// Whether the tokenizer may give `rows` for the first of the texts and the
/// error `e` for the next.
pub open spec fn fails_behind<T: Tokenizer>(
    tokenizer: &T,
    texts: Seq<&str>,
    add_special_tokens: bool,
    rows: Seq<Vec<u32>>,
    e: Error,
) -> bool {
    &&& tokens_of(tokenizer, texts, add_special_tokens, rows)
    &&& rows.len() < texts.len()
    &&& call_ensures(
        T::encode,
        (tokenizer, texts[rows.len() as int], add_special_tokens),
        Err::<Vec<u32>, Error>(e),
    )
}

/// Whether the tokenizer may give the error `e` for one of the texts, after
/// tokens for those before it.
pub open spec fn tokenizing_fails<T: Tokenizer>(
    tokenizer: &T,
    texts: Seq<&str>,
    add_special_tokens: bool,
    e: Error,
) -> bool {
    exists|rows: Seq<Vec<u32>>| #[trigger]
        fails_behind(tokenizer, texts, add_special_tokens, rows, e)
}

/// The tokens of the texts, one after the other; the first error of the
/// tokenizer ends it.
pub fn tokenize<T: Tokenizer>(tokenizer: &T, texts: &[&str], add_special_tokens: bool) -> (r: Result<
    Vec<Vec<u32>>,
>)
    ensures
        match r {
            Ok(rows) => rows@.len() == texts@.len() && tokens_of(
                tokenizer,
                texts@,
                add_special_tokens,
                rows@,
            ),
            Err(e) => tokenizing_fails(tokenizer, texts@, add_special_tokens, e),
        },
{
    let n: usize = texts.len();
    let mut rows: Vec<Vec<u32>> = Vec::new();
    while rows.len() < n
        invariant
            n == texts@.len(),
            rows@.len() <= n,
            tokens_of(tokenizer, texts@, add_special_tokens, rows@),
        decreases n - rows@.len(),
    {
        let text: &str = texts[rows.len()];
        match tokenizer.encode(text, add_special_tokens) {
            Ok(ids) => {
                let ghost before = rows@;
                rows.push(ids);
                assert(tokens_of(tokenizer, texts@, add_special_tokens, rows@)) by {
                    assert forall|i: int| 0 <= i < rows@.len() implies call_ensures(
                        T::encode,
                        (tokenizer, texts@[i], add_special_tokens),
                        Ok(#[trigger] rows@[i]),
                    ) by {
                        if i < before.len() {
                            assert(rows@[i] == before[i]);
                        }
                    }
                }
            },
            Err(e) => {
                assert(fails_behind(tokenizer, texts@, add_special_tokens, rows@, e));
                return Err(e);
            },
        }
    }
    Ok(rows)
}

/// The batch of the texts by its tokens and its marks: `(input_ids,
/// attention_mask, seq_len)`.
pub fn tokenize_and_pad<T: Tokenizer>(
    tokenizer: &T,
    texts: &[&str],
    add_special_tokens: bool,
    max_length: Option<usize>,
    pad_token_id: u32,
) -> (r: Result<(Array, Array, usize)>)
    ensures
        (r is Err && tokenizing_fails(tokenizer, texts@, add_special_tokens, r->Err_0)) || exists|
            rows: Seq<Vec<u32>>,
        |
            rows.len() == texts@.len() && #[trigger] tokens_of(
                tokenizer,
                texts@,
                add_special_tokens,
                rows,
            ) && padded_to(rows, max_length, pad_token_id, r),
{
    match tokenize(tokenizer, texts, add_special_tokens) {
        Ok(rows) => pad_rows(&rows, max_length, pad_token_id),
        Err(e) => Err(e),
    }
}

/// The embeddings of a batch of texts: their tokens, with or without the
/// special ones, go through the model, and what it gives is pooled.
pub fn encode<M: EmbeddingModel, T: Tokenizer>(
    model: &M,
    tokenizer: &T,
    texts: &[&str],
    cfg: &EncodeConfig,
) -> (r: Result<Array>)
    ensures
        (r is Err && tokenizing_fails(tokenizer, texts@, cfg.add_special_tokens, r->Err_0)) || exists|
            rows: Seq<Vec<u32>>,
        |
            rows.len() == texts@.len() && #[trigger] tokens_of(
                tokenizer,
                texts@,
                cfg.add_special_tokens,
                rows,
            ) && encoded(model, rows, *cfg, r),
{
    match tokenize(tokenizer, texts, cfg.add_special_tokens) {
        Ok(rows) => encode_rows(model, &rows, cfg),
        Err(e) => Err(e),
    }
}

/// The marks do not depend on the token that fills up, so neither does what is
/// pooled by them: changing it changes the tokens only where the marks are
/// zero.
pub proof fn filling_is_unmarked(
    rows: Seq<Vec<u32>>,
    max_length: Option<usize>,
    a: u32,
    b: u32,
    k: int,
)
    requires
        0 <= k < rows.len() * longest(rows, max_length),
        padded_ids(rows, longest(rows, max_length), max_length, a)[k] != padded_ids(
            rows,
            longest(rows, max_length),
            max_length,
            b,
        )[k],
    ensures
        mask_bits(rows, longest(rows, max_length), max_length)[k] == 0,
{
}

/// The longest text is not filled up, and none has more marks than tokens or
/// than asked for.
pub proof fn no_text_is_longer(rows: Seq<Vec<u32>>, max_length: Option<usize>, i: int)
    requires
        0 <= i < rows.len(),
    ensures
        taken(rows[i]@.len(), max_length) <= longest(rows, max_length),
        taken(rows[i]@.len(), max_length) <= rows[i]@.len(),
        max_length matches Some(cap) ==> taken(rows[i]@.len(), max_length) <= cap,
{
    lemma_longest(rows, max_length, i);
}

/// The length of a batch is that of its longest text after cutting: no text
/// is longer, and some text has it, or all are empty.
pub proof fn batch_is_as_long_as_its_longest_text(rows: Seq<Vec<u32>>, max_length: Option<usize>)
    ensures
        forall|i: int|
            #![trigger rows[i]]
            0 <= i < rows.len() ==> rows[i]@.len() <= longest(rows, max_length) || max_length == Some(
                longest(rows, max_length) as usize,
            ),
        max_length matches Some(cap) ==> longest(rows, max_length) <= cap,
        longest(rows, max_length) == 0 || exists|i: int|
            #![trigger rows[i]]
            0 <= i < rows.len() && rows[i]@.len() >= longest(rows, max_length) && (rows[i]@.len()
                == longest(rows, max_length) || max_length == Some(
                longest(rows, max_length) as usize,
            )),
    decreases rows.len(),
{
    if rows.len() > 0 {
        let rest = rows.drop_last();
        batch_is_as_long_as_its_longest_text(rest, max_length);
        assert forall|i: int|
            #![trigger rows[i]]
            0 <= i < rows.len() implies rows[i]@.len() <= longest(rows, max_length) || max_length
            == Some(longest(rows, max_length) as usize) by {
            if i < rest.len() {
                assert(rest[i] == rows[i]);
            }
        }
        let m = longest(rest, max_length);
        if longest(rows, max_length) == m && m != 0 {
            let i = choose|i: int|
                #![trigger rest[i]]
                0 <= i < rest.len() && rest[i]@.len() >= m && (rest[i]@.len() == m || max_length
                    == Some(m as usize));
            assert(rows[i] == rest[i]);
        } else {
            assert(rows[rows.len() - 1] == rows.last());
        }
    }
}

/// A batch holds in the row of each text its tokens from the first on, as many
/// as there are and are asked for at most, each with the mark one; behind them
/// stand the filling and marks of zero.
pub proof fn batch_holds_its_texts(
    rows: Seq<Vec<u32>>,
    max_length: Option<usize>,
    pad: u32,
    i: int,
    c: int,
)
    requires
        ids_of(rows, max_length, pad) is Some,
        mask_of(rows, max_length) is Some,
        0 <= i < rows.len() <= usize::MAX,
        0 <= c < longest(rows, max_length) <= usize::MAX,
    ensures
        ({
            let len = longest(rows, max_length);
            let (ids, mask) = (ids_of(rows, max_length, pad)->0, mask_of(rows, max_length)->0);
            let k = i * len + c;
            &&& ids.shape == seq![rows.len() as usize, len as usize]
            &&& mask.shape == ids.shape
            &&& 0 <= k < ids.bits.len()
            &&& mask.bits.len() == ids.bits.len()
            &&& if c < rows[i]@.len() && (max_length matches Some(cap) ==> c < cap) {
                ids.bits[k] == rows[i]@[c] && mask.bits[k] == 0x3f80_0000
            } else {
                ids.bits[k] == pad && mask.bits[k] == 0
            }
        }),
{
    let len = longest(rows, max_length) as int;
    let k = i * len + c;
    assert(0 <= k < rows.len() * len) by (nonlinear_arith)
        requires
            k == i * len + c,
            0 <= i < rows.len(),
            0 <= c < len,
    ;
    vstd::arithmetic::div_mod::lemma_fundamental_div_mod_converse(k, len, i, c);
}

/// Each setting governs its own step of embedding a batch.
pub proof fn settings_govern_their_steps(hidden: Tensor, mask: Tensor, cfg: EncodeConfig)
    ensures
        embedded(hidden, mask, cfg) == pooled(
            hidden,
            mask,
            cfg.strategy,
            cfg.normalize,
            cfg.dimension,
            cfg.apply_layer_norm,
            cfg.apply_rms_norm,
        ),
{
}

} // verus!
