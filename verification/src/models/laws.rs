use vstd::prelude::*;
use crate::algebra::{lemma_add_zeros, lemma_matmul_with_zeros, zero_absorbs, zero_is_neutral};
use crate::broadcasting::lemma_broadcast_same;
use crate::elementwise::{div_scalar_rel, map_silu_rel, zip_rel, BinaryOp};
use crate::kernels::fast_lora::{adapter_fits_weight, projection_rel, LoraAdapterView};
use crate::layout::{all_zero, merge_heads_rel, repeat_rel, select_rel, split_heads_rel, swap12_rel};
use crate::matmul::{batched_matmul_rel, matmul_rel};
use crate::models::determinism::lemma_projection_shape;
use crate::models::llama::{
    attention_rel, attention_weights_rel, decoder_rel, feed_forward_rel, head_projection_rel,
    head_scale_rel, layers_rel, model_rel, norm_eps_rel, rotary_rel, turned_rel, AttentionView,
    DecoderLayerView, ModelView, ROPE_THETA,
};
use crate::rmsnorm::rmsnorm_rel;
use crate::rope::rope_tokens_rel;
use crate::scalar::Scalar;
use crate::shape::lemma_size_2;
use crate::softmax::softmax_rel;
use crate::tensor::TensorView;

verus! {

/// The heads of a projection come as `heads` blocks with one row for each
/// row of the input.
pub proof fn lemma_head_projection_rows<T: Scalar>(
    x: TensorView<T>,
    w: TensorView<T>,
    adapter: Option<LoraAdapterView<T>>,
    heads: usize,
    head_dim: usize,
    rotary: Option<usize>,
    r: TensorView<T>,
)
    requires
        adapter_fits_weight(w.shape, adapter),
        head_projection_rel(x, w, adapter, heads, head_dim, rotary, r),
    ensures
        r.shape == seq![heads, x.shape[0], head_dim],
{
    let (p, turned) = choose|p: TensorView<T>, turned: TensorView<T>|
        #[trigger] projection_rel(x, w, adapter, p) && turned_rel(p, rotary, turned)
            && #[trigger] split_heads_rel(turned, heads, head_dim, r);
    lemma_projection_shape(x, w, adapter, p);
    match rotary {
        Some(rotary_dim) => {
            assert(rotary_rel(p, rotary_dim, turned));
            let theta = choose|theta: T|
                call_ensures(T::from_usize, (ROPE_THETA,), theta) && #[trigger] rope_tokens_rel(
                    p,
                    0,
                    rotary_dim,
                    theta,
                    turned,
                );
        },
        None => {},
    }
}

/// What an attention block gives has one row for each row of its input,
/// as wide as the output projection.
pub proof fn lemma_attention_shape<T: Scalar>(a: AttentionView<T>, x: TensorView<T>, r: TensorView<T>)
    requires
        a.consistent(),
        attention_rel(a, x, r),
    ensures
        r.shape == seq![x.shape[0], a.out_dim()],
{
    let n_rep = (a.n_heads / a.n_kv_heads) as usize;
    let (q, k, keys, v, values, weights, mixed, merged) = choose|
        q: TensorView<T>,
        k: TensorView<T>,
        keys: TensorView<T>,
        v: TensorView<T>,
        values: TensorView<T>,
        weights: TensorView<T>,
        mixed: TensorView<T>,
        merged: TensorView<T>,
    |
        #[trigger] head_projection_rel(x, a.wq, a.lora_q, a.n_heads, a.head_dim, Some(a.rotary_dim), q)
            && #[trigger] head_projection_rel(
            x,
            a.wk,
            a.lora_k,
            a.n_kv_heads,
            a.head_dim,
            Some(a.rotary_dim),
            k,
        ) && #[trigger] repeat_rel(k, n_rep, keys) && #[trigger] head_projection_rel(
            x,
            a.wv,
            a.lora_v,
            a.n_kv_heads,
            a.head_dim,
            None,
            v,
        ) && #[trigger] repeat_rel(v, n_rep, values) && #[trigger] attention_weights_rel(
            q,
            keys,
            a.head_dim,
            weights,
        ) && #[trigger] batched_matmul_rel(weights, values, mixed) && #[trigger] merge_heads_rel(
            mixed,
            merged,
        ) && matmul_rel(merged, a.wo, r);
    lemma_head_projection_rows(x, a.wq, a.lora_q, a.n_heads, a.head_dim, Some(a.rotary_dim), q);
    let (kt, scores, root, scaled) = choose|
        kt: TensorView<T>,
        scores: TensorView<T>,
        root: T,
        scaled: TensorView<T>,
    |
        #[trigger] swap12_rel(keys, kt) && #[trigger] batched_matmul_rel(q, kt, scores) && head_scale_rel(
            a.head_dim,
            root,
        ) && #[trigger] div_scalar_rel(scores, root, scaled) && softmax_rel(scaled, 2, weights);
    assert(weights.shape[1] == x.shape[0]);
    assert(mixed.shape[1] == x.shape[0]);
    assert(merged.shape[0] == x.shape[0]);
}

/// What a decoder layer gives has the dimensions of what it is given.
pub proof fn lemma_decoder_shape<T: Scalar>(l: DecoderLayerView<T>, x: TensorView<T>, r: TensorView<T>)
    requires
        l.consistent(),
        x.shape.len() == 2,
        x.shape[1] == l.hidden(),
        decoder_rel(l, x, r),
    ensures
        r.shape == x.shape,
{
    let (eps, normed, attended, h, h_normed, fed) = choose|
        eps: T,
        normed: TensorView<T>,
        attended: TensorView<T>,
        h: TensorView<T>,
        h_normed: TensorView<T>,
        fed: TensorView<T>,
    |
        norm_eps_rel(eps) && #[trigger] rmsnorm_rel(x, l.attention_norm, eps, normed)
            && #[trigger] attention_rel(l.self_attn, normed, attended) && #[trigger] zip_rel(
            BinaryOp::Add,
            x,
            attended,
            h,
        ) && #[trigger] rmsnorm_rel(h, l.ffn_norm, eps, h_normed) && #[trigger] feed_forward_rel(
            l,
            h_normed,
            fed,
        ) && zip_rel(BinaryOp::Add, h, fed, r);
    lemma_attention_shape(l.self_attn, normed, attended);
    assert(attended.shape =~= x.shape);
    lemma_broadcast_same(x.shape);
    assert(h.shape == x.shape);
    let (pre, gate, up, hidden) = choose|
        pre: TensorView<T>,
        gate: TensorView<T>,
        up: TensorView<T>,
        hidden: TensorView<T>,
    |
        #[trigger] projection_rel(h_normed, l.w1, l.lora_w1, pre) && #[trigger] map_silu_rel(pre, gate)
            && #[trigger] projection_rel(h_normed, l.w3, l.lora_w3, up) && #[trigger] zip_rel(
            BinaryOp::Mul,
            gate,
            up,
            hidden,
        ) && projection_rel(hidden, l.w2, l.lora_w2, fed);
    lemma_projection_shape(h_normed, l.w1, l.lora_w1, pre);
    lemma_projection_shape(h_normed, l.w3, l.lora_w3, up);
    assert(up.shape =~= gate.shape);
    lemma_broadcast_same(gate.shape);
    lemma_projection_shape(hidden, l.w2, l.lora_w2, fed);
    assert(fed.shape =~= x.shape);
}

/// What a run of decoder layers gives has the dimensions of what it is
/// given.
pub proof fn lemma_layers_shape<T: Scalar>(
    layers: Seq<DecoderLayerView<T>>,
    k: nat,
    x: TensorView<T>,
    r: TensorView<T>,
)
    requires
        k <= layers.len(),
        x.shape.len() == 2,
        forall|i: int|
            0 <= i < layers.len() ==> (#[trigger] layers[i]).consistent() && layers[i].hidden()
                == x.shape[1],
        layers_rel(layers, k, x, r),
    ensures
        r.shape == x.shape,
    decreases k,
{
    if k > 0 {
        let mid = choose|mid: TensorView<T>|
            layers_rel(layers, (k - 1) as nat, x, mid) && #[trigger] decoder_rel(layers[k - 1], mid, r);
        lemma_layers_shape(layers, (k - 1) as nat, x, mid);
        lemma_decoder_shape(layers[k - 1], mid, r);
    }
}

/// The logits of a model have one row for each token and one column for
/// each token of the vocabulary.
pub proof fn lemma_model_shape<T: Scalar>(m: ModelView<T>, x: Seq<usize>, r: TensorView<T>)
    requires
        m.consistent(),
        model_rel(m, x, r),
    ensures
        r.shape == seq![x.len() as usize, m.vocab_size()],
{
    let (embedded, h, eps, normed) = choose|
        embedded: TensorView<T>,
        h: TensorView<T>,
        eps: T,
        normed: TensorView<T>,
    |
        #[trigger] select_rel(m.embedding, x, embedded) && #[trigger] layers_rel(
            m.layers,
            m.layers.len(),
            embedded,
            h,
        ) && norm_eps_rel(eps) && #[trigger] rmsnorm_rel(h, m.norm, eps, normed) && matmul_rel(
            normed,
            m.output,
            r,
        );
    lemma_layers_shape(m.layers, m.layers.len(), embedded, h);
}

/// Where zero absorbs, a model whose output projection is zero gives
/// logits that are all zero, whatever its other weights and its tokens.
pub proof fn lemma_zero_output_gives_zero_logits<T: Scalar>(
    m: ModelView<T>,
    x: Seq<usize>,
    r: TensorView<T>,
)
    requires
        zero_absorbs::<T>(),
        m.consistent(),
        m.output.wf(),
        all_zero(m.output),
        model_rel(m, x, r),
    ensures
        r.shape == seq![x.len() as usize, m.vocab_size()],
        all_zero(r),
{
    lemma_model_shape(m, x, r);
    let (embedded, h, eps, normed) = choose|
        embedded: TensorView<T>,
        h: TensorView<T>,
        eps: T,
        normed: TensorView<T>,
    |
        #[trigger] select_rel(m.embedding, x, embedded) && #[trigger] layers_rel(
            m.layers,
            m.layers.len(),
            embedded,
            h,
        ) && norm_eps_rel(eps) && #[trigger] rmsnorm_rel(h, m.norm, eps, normed) && matmul_rel(
            normed,
            m.output,
            r,
        );
    lemma_layers_shape(m.layers, m.layers.len(), embedded, h);
    lemma_matmul_with_zeros(normed, m.output, r);
}

/// Where zero absorbs, an attention block whose output projection is zero
/// gives zeros.
pub proof fn lemma_zero_projection_gives_zero_attention<T: Scalar>(
    a: AttentionView<T>,
    x: TensorView<T>,
    r: TensorView<T>,
)
    requires
        zero_absorbs::<T>(),
        a.consistent(),
        a.wo.wf(),
        all_zero(a.wo),
        attention_rel(a, x, r),
    ensures
        r.shape == seq![x.shape[0], a.out_dim()],
        r.wf(),
        all_zero(r),
{
    lemma_attention_shape(a, x, r);
    let n_rep = (a.n_heads / a.n_kv_heads) as usize;
    let (q, k, keys, v, values, weights, mixed, merged) = choose|
        q: TensorView<T>,
        k: TensorView<T>,
        keys: TensorView<T>,
        v: TensorView<T>,
        values: TensorView<T>,
        weights: TensorView<T>,
        mixed: TensorView<T>,
        merged: TensorView<T>,
    |
        #[trigger] head_projection_rel(x, a.wq, a.lora_q, a.n_heads, a.head_dim, Some(a.rotary_dim), q)
            && #[trigger] head_projection_rel(
            x,
            a.wk,
            a.lora_k,
            a.n_kv_heads,
            a.head_dim,
            Some(a.rotary_dim),
            k,
        ) && #[trigger] repeat_rel(k, n_rep, keys) && #[trigger] head_projection_rel(
            x,
            a.wv,
            a.lora_v,
            a.n_kv_heads,
            a.head_dim,
            None,
            v,
        ) && #[trigger] repeat_rel(v, n_rep, values) && #[trigger] attention_weights_rel(
            q,
            keys,
            a.head_dim,
            weights,
        ) && #[trigger] batched_matmul_rel(weights, values, mixed) && #[trigger] merge_heads_rel(
            mixed,
            merged,
        ) && matmul_rel(merged, a.wo, r);
    lemma_head_projection_rows(x, a.wq, a.lora_q, a.n_heads, a.head_dim, Some(a.rotary_dim), q);
    lemma_head_projection_rows(x, a.wv, a.lora_v, a.n_kv_heads, a.head_dim, None, v);
    let (kt, scores, root, scaled) = choose|
        kt: TensorView<T>,
        scores: TensorView<T>,
        root: T,
        scaled: TensorView<T>,
    |
        #[trigger] swap12_rel(keys, kt) && #[trigger] batched_matmul_rel(q, kt, scores) && head_scale_rel(
            a.head_dim,
            root,
        ) && #[trigger] div_scalar_rel(scores, root, scaled) && softmax_rel(scaled, 2, weights);
    assert(weights.shape[0] == a.n_heads);
    assert(mixed.shape[0] == a.n_heads);
    assert(mixed.shape[2] == a.head_dim);
    assert(merged.shape[1] == a.wo.shape[0]);
    lemma_matmul_with_zeros(merged, a.wo, r);
    lemma_size_2(r.shape);
}

/// Where zero absorbs and is neutral, a layer whose attention output
/// projection and whose down projection `w2` are zero, the latter without
/// an adapter, hands its input on as it is.
pub proof fn lemma_zero_layer_hands_on<T: Scalar>(l: DecoderLayerView<T>, x: TensorView<T>, r: TensorView<T>)
    requires
        zero_absorbs::<T>(),
        zero_is_neutral::<T>(),
        l.consistent(),
        x.wf(),
        x.shape.len() == 2,
        x.shape[1] == l.hidden(),
        l.self_attn.wo.wf(),
        all_zero(l.self_attn.wo),
        l.w2.wf(),
        all_zero(l.w2),
        l.lora_w2 is None,
        decoder_rel(l, x, r),
    ensures
        r == x,
{
    let (eps, normed, attended, h, h_normed, fed) = choose|
        eps: T,
        normed: TensorView<T>,
        attended: TensorView<T>,
        h: TensorView<T>,
        h_normed: TensorView<T>,
        fed: TensorView<T>,
    |
        norm_eps_rel(eps) && #[trigger] rmsnorm_rel(x, l.attention_norm, eps, normed)
            && #[trigger] attention_rel(l.self_attn, normed, attended) && #[trigger] zip_rel(
            BinaryOp::Add,
            x,
            attended,
            h,
        ) && #[trigger] rmsnorm_rel(h, l.ffn_norm, eps, h_normed) && #[trigger] feed_forward_rel(
            l,
            h_normed,
            fed,
        ) && zip_rel(BinaryOp::Add, h, fed, r);
    lemma_zero_projection_gives_zero_attention(l.self_attn, normed, attended);
    assert(attended.shape =~= x.shape);
    lemma_add_zeros(x, attended, h);
    let (pre, gate, up, hidden) = choose|
        pre: TensorView<T>,
        gate: TensorView<T>,
        up: TensorView<T>,
        hidden: TensorView<T>,
    |
        #[trigger] projection_rel(h_normed, l.w1, l.lora_w1, pre) && #[trigger] map_silu_rel(pre, gate)
            && #[trigger] projection_rel(h_normed, l.w3, l.lora_w3, up) && #[trigger] zip_rel(
            BinaryOp::Mul,
            gate,
            up,
            hidden,
        ) && projection_rel(hidden, l.w2, l.lora_w2, fed);
    lemma_projection_shape(h_normed, l.w1, l.lora_w1, pre);
    lemma_projection_shape(h_normed, l.w3, l.lora_w3, up);
    assert(up.shape =~= gate.shape);
    lemma_broadcast_same(gate.shape);
    lemma_projection_shape(hidden, l.w2, l.lora_w2, fed);
    assert(fed.shape =~= x.shape);
    lemma_matmul_with_zeros(hidden, l.w2, fed);
    lemma_add_zeros(h, fed, r);
}

} // verus!
