use vstd::prelude::*;
use vstd::arithmetic::div_mod::lemma_fundamental_div_mod;
use crate::algebra::{
    is_identity, lemma_matmul_with_identity, one_is_neutral, zero_absorbs, zero_is_neutral,
};
use crate::determinism::{
    deterministic, lemma_rows_equal, lemma_whole_rows, lemma_batched_matmul_unique, lemma_div_scalar_unique, lemma_dot_unique,
    lemma_map_silu_unique, lemma_matmul_unique, lemma_merge_heads_unique, lemma_repeat_unique,
    lemma_rmsnorm_unique, lemma_rope_tokens_unique, lemma_select_unique, lemma_softmax_lane_unique,
    lemma_softmax_unique, lemma_split_heads_unique, lemma_swap12_unique, lemma_zip_unique,
};
use crate::broadcasting::lemma_broadcast_same;
use crate::elementwise::{div_scalar_rel, map_silu_rel, zip_rel, BinaryOp};
use crate::kernels::determinism::lemma_projection_unique;
use crate::kernels::fast_lora::{
    adapter_fits_weight, projection_rel, LoraAdapterView, LoraLinearView,
};
use crate::layout::{
    at2, at3, lemma_repeat_shares_group, merge_heads_rel, repeat_rel, select_rel, split_heads_rel,
    swap12_rel,
};
use crate::matmul::{batched_matmul_rel, matmul_rel, matmul_shape, matrix_col, matrix_row};
use crate::models::llama::{
    attention_rel, attention_weights_rel, decoder_rel, feed_forward_rel, head_projection_rel,
    head_scale_rel, layers_rel, model_rel, norm_eps_rel, rotary_rel, turned_rel, AttentionView,
    DecoderLayerView, ModelView, NORM_EPS_INVERSE, ROPE_THETA,
};
use crate::rmsnorm::rmsnorm_rel;
use crate::models::laws::lemma_head_projection_rows;
use crate::rope::{rope_at_rel, rope_row_rel, rope_table_rel, rope_tokens_rel};
use crate::scalar::{strided, Scalar};
use crate::shape::{lemma_index2, lemma_index3, lemma_size_2, lemma_size_3, shape_size};
use crate::softmax::{lane, softmax_rel};
use crate::tensor::{row_count, row_of, TensorView};

verus! {

/// A matrix product holds as many elements as its dimensions call for.
proof fn lemma_matmul_wf<T: Scalar>(a: TensorView<T>, b: TensorView<T>, r: TensorView<T>)
    requires
        matmul_rel(a, b, r),
    ensures
        r.wf(),
        r.shape.len() == 2,
{
    lemma_size_2(r.shape);
}

/// The products of two stacks of matrices hold as many elements as their
/// dimensions call for.
proof fn lemma_batched_matmul_wf<T: Scalar>(a: TensorView<T>, b: TensorView<T>, r: TensorView<T>)
    requires
        batched_matmul_rel(a, b, r),
    ensures
        r.wf(),
        r.shape.len() == 3,
{
    lemma_size_3(r.shape);
}

/// A projection whose adapter goes with its weight has the dimensions that
/// the weight alone gives it, and holds as many elements as they call for.
pub proof fn lemma_projection_shape<T: Scalar>(
    x: TensorView<T>,
    w: TensorView<T>,
    adapter: Option<LoraAdapterView<T>>,
    r: TensorView<T>,
)
    requires
        projection_rel(x, w, adapter, r),
        adapter_fits_weight(w.shape, adapter),
    ensures
        r.shape == matmul_shape(x.shape, w.shape),
        r.wf(),
{
    match adapter {
        Some(ad) => {
            let l = LoraLinearView { weight: w, lora_a: ad.lora_a, lora_b: ad.lora_b };
            let (main, down, share) = choose|
                main: TensorView<T>,
                down: TensorView<T>,
                adapter: TensorView<T>,
            |
                #[trigger] matmul_rel(x, l.weight, main) && #[trigger] matmul_rel(x, l.lora_a, down)
                    && #[trigger] matmul_rel(down, l.lora_b, adapter) && zip_rel(
                    BinaryOp::Add,
                    main,
                    adapter,
                    r,
                );
            assert(share.shape =~= main.shape);
            lemma_broadcast_same(main.shape);
        },
        None => {
            lemma_matmul_wf(x, w, r);
        },
    }
}

/// With deterministic operations the epsilon of the normalisations has one
/// outcome.
pub proof fn lemma_norm_eps_unique<T: Scalar>(e1: T, e2: T)
    requires
        deterministic::<T>(),
        norm_eps_rel(e1),
        norm_eps_rel(e2),
    ensures
        e1 == e2,
{
    let (one1, big1) = choose|one: T, big: T|
        call_ensures(T::from_usize, (1usize,), one) && call_ensures(T::from_usize, (NORM_EPS_INVERSE,), big)
            && #[trigger] call_ensures(T::div, (one, big), e1);
    let (one2, big2) = choose|one: T, big: T|
        call_ensures(T::from_usize, (1usize,), one) && call_ensures(T::from_usize, (NORM_EPS_INVERSE,), big)
            && #[trigger] call_ensures(T::div, (one, big), e2);
    assert(one1 == one2 && big1 == big2);
}

/// With deterministic operations the root of the head width has one
/// outcome.
pub proof fn lemma_head_scale_unique<T: Scalar>(head_dim: usize, r1: T, r2: T)
    requires
        deterministic::<T>(),
        head_scale_rel(head_dim, r1),
        head_scale_rel(head_dim, r2),
    ensures
        r1 == r2,
{
    let w1 = choose|width: T|
        call_ensures(T::from_usize, (head_dim,), width) && call_ensures(T::sqrt, (width,), r1);
    let w2 = choose|width: T|
        call_ensures(T::from_usize, (head_dim,), width) && call_ensures(T::sqrt, (width,), r2);
    assert(w1 == w2);
}

/// With deterministic operations the heads of a projection have one
/// outcome.
pub proof fn lemma_head_projection_unique<T: Scalar>(
    x: TensorView<T>,
    w: TensorView<T>,
    adapter: Option<LoraAdapterView<T>>,
    heads: usize,
    head_dim: usize,
    rotary: Option<usize>,
    r1: TensorView<T>,
    r2: TensorView<T>,
)
    requires
        deterministic::<T>(),
        w.shape[1] == heads * head_dim,
        adapter_fits_weight(w.shape, adapter),
        head_projection_rel(x, w, adapter, heads, head_dim, rotary, r1),
        head_projection_rel(x, w, adapter, heads, head_dim, rotary, r2),
    ensures
        r1 == r2,
{
    let (pa, t1) = choose|p: TensorView<T>, turned: TensorView<T>|
        #[trigger] projection_rel(x, w, adapter, p) && turned_rel(p, rotary, turned)
            && #[trigger] split_heads_rel(turned, heads, head_dim, r1);
    let (pb, t2) = choose|p: TensorView<T>, turned: TensorView<T>|
        #[trigger] projection_rel(x, w, adapter, p) && turned_rel(p, rotary, turned)
            && #[trigger] split_heads_rel(turned, heads, head_dim, r2);
    lemma_projection_unique(x, w, adapter, pa, pb);
    lemma_projection_shape(x, w, adapter, pa);
    match rotary {
        Some(rotary_dim) => {
            assert(rotary_rel(pa, rotary_dim, t1));
            assert(rotary_rel(pb, rotary_dim, t2));
            let theta1 = choose|theta: T|
                call_ensures(T::from_usize, (ROPE_THETA,), theta) && #[trigger] rope_tokens_rel(
                    pa,
                    0,
                    rotary_dim,
                    theta,
                    t1,
                );
            let theta2 = choose|theta: T|
                call_ensures(T::from_usize, (ROPE_THETA,), theta) && #[trigger] rope_tokens_rel(
                    pb,
                    0,
                    rotary_dim,
                    theta,
                    t2,
                );
            assert(theta1 == theta2);
            lemma_rope_tokens_unique(pa, 0, rotary_dim, theta1, t1, t2);
        },
        None => {},
    }
    lemma_split_heads_unique(t1, heads, head_dim, r1, r2);
}

/// With deterministic operations the attention weights have one outcome.
pub proof fn lemma_attention_weights_unique<T: Scalar>(
    q: TensorView<T>,
    k: TensorView<T>,
    head_dim: usize,
    r1: TensorView<T>,
    r2: TensorView<T>,
)
    requires
        deterministic::<T>(),
        k.wf(),
        k.shape.len() == 3,
        attention_weights_rel(q, k, head_dim, r1),
        attention_weights_rel(q, k, head_dim, r2),
    ensures
        r1 == r2,
{
    let (kt1, scores1, root1, scaled1) = choose|
        kt: TensorView<T>,
        scores: TensorView<T>,
        root: T,
        scaled: TensorView<T>,
    |
        #[trigger] swap12_rel(k, kt) && #[trigger] batched_matmul_rel(q, kt, scores) && head_scale_rel(
            head_dim,
            root,
        ) && #[trigger] div_scalar_rel(scores, root, scaled) && softmax_rel(scaled, 2, r1);
    let (kt2, scores2, root2, scaled2) = choose|
        kt: TensorView<T>,
        scores: TensorView<T>,
        root: T,
        scaled: TensorView<T>,
    |
        #[trigger] swap12_rel(k, kt) && #[trigger] batched_matmul_rel(q, kt, scores) && head_scale_rel(
            head_dim,
            root,
        ) && #[trigger] div_scalar_rel(scores, root, scaled) && softmax_rel(scaled, 2, r2);
    lemma_swap12_unique(k, kt1, kt2);
    lemma_batched_matmul_unique(q, kt1, scores1, scores2);
    lemma_batched_matmul_wf(q, kt1, scores1);
    lemma_head_scale_unique(head_dim, root1, root2);
    lemma_div_scalar_unique(scores1, root1, scaled1, scaled2);
    lemma_softmax_unique(scaled1, 2, r1, r2);
}

/// With deterministic operations an attention block has one output.
pub proof fn lemma_attention_unique<T: Scalar>(
    a: AttentionView<T>,
    x: TensorView<T>,
    r1: TensorView<T>,
    r2: TensorView<T>,
)
    requires
        deterministic::<T>(),
        a.consistent(),
        attention_rel(a, x, r1),
        attention_rel(a, x, r2),
    ensures
        r1 == r2,
{
    let n_rep = (a.n_heads / a.n_kv_heads) as usize;
    let (q1, k1, keys1, v1, values1, weights1, mixed1, merged1) = choose|
        q: TensorView<T>,
        k: TensorView<T>,
        keys: TensorView<T>,
        v: TensorView<T>,
        values: TensorView<T>,
        weights: TensorView<T>,
        mixed: TensorView<T>,
        merged: TensorView<T>,
    |
        #[trigger] head_projection_rel(x, a.wq, a.lora_q, a.n_heads, a.head_dim, Some(a.rotary_dim), q)
            && #[trigger] head_projection_rel(
            x,
            a.wk,
            a.lora_k,
            a.n_kv_heads,
            a.head_dim,
            Some(a.rotary_dim),
            k,
        ) && #[trigger] repeat_rel(k, n_rep, keys) && #[trigger] head_projection_rel(
            x,
            a.wv,
            a.lora_v,
            a.n_kv_heads,
            a.head_dim,
            None,
            v,
        ) && #[trigger] repeat_rel(v, n_rep, values) && #[trigger] attention_weights_rel(
            q,
            keys,
            a.head_dim,
            weights,
        ) && #[trigger] batched_matmul_rel(weights, values, mixed) && #[trigger] merge_heads_rel(
            mixed,
            merged,
        ) && matmul_rel(merged, a.wo, r1);
    let (q2, k2, keys2, v2, values2, weights2, mixed2, merged2) = choose|
        q: TensorView<T>,
        k: TensorView<T>,
        keys: TensorView<T>,
        v: TensorView<T>,
        values: TensorView<T>,
        weights: TensorView<T>,
        mixed: TensorView<T>,
        merged: TensorView<T>,
    |
        #[trigger] head_projection_rel(x, a.wq, a.lora_q, a.n_heads, a.head_dim, Some(a.rotary_dim), q)
            && #[trigger] head_projection_rel(
            x,
            a.wk,
            a.lora_k,
            a.n_kv_heads,
            a.head_dim,
            Some(a.rotary_dim),
            k,
        ) && #[trigger] repeat_rel(k, n_rep, keys) && #[trigger] head_projection_rel(
            x,
            a.wv,
            a.lora_v,
            a.n_kv_heads,
            a.head_dim,
            None,
            v,
        ) && #[trigger] repeat_rel(v, n_rep, values) && #[trigger] attention_weights_rel(
            q,
            keys,
            a.head_dim,
            weights,
        ) && #[trigger] batched_matmul_rel(weights, values, mixed) && #[trigger] merge_heads_rel(
            mixed,
            merged,
        ) && matmul_rel(merged, a.wo, r2);
    lemma_head_projection_unique(
        x,
        a.wq,
        a.lora_q,
        a.n_heads,
        a.head_dim,
        Some(a.rotary_dim),
        q1,
        q2,
    );
    lemma_head_projection_unique(
        x,
        a.wk,
        a.lora_k,
        a.n_kv_heads,
        a.head_dim,
        Some(a.rotary_dim),
        k1,
        k2,
    );
    lemma_head_projection_unique(x, a.wv, a.lora_v, a.n_kv_heads, a.head_dim, None, v1, v2);
    lemma_head_projection_shape(x, a.wk, a.lora_k, a.n_kv_heads, a.head_dim, Some(a.rotary_dim), k1);
    lemma_head_projection_shape(x, a.wv, a.lora_v, a.n_kv_heads, a.head_dim, None, v1);
    lemma_repeat_unique(k1, n_rep, keys1, keys2);
    lemma_repeat_unique(v1, n_rep, values1, values2);
    lemma_fundamental_div_mod(a.n_heads as int, a.n_kv_heads as int);
    assert(a.n_kv_heads * n_rep == a.n_heads) by (nonlinear_arith)
        requires
            a.n_heads == a.n_kv_heads * (a.n_heads / a.n_kv_heads) + a.n_heads % a.n_kv_heads,
            a.n_heads % a.n_kv_heads == 0,
            n_rep == a.n_heads / a.n_kv_heads,
    ;
    lemma_size_3(keys1.shape);
    assert(keys1.wf()) by (nonlinear_arith)
        requires
            keys1.data.len() == k1.shape[0] * n_rep * (k1.shape[1] * k1.shape[2]),
            shape_size(keys1.shape) == keys1.shape[0] * keys1.shape[1] * keys1.shape[2],
            keys1.shape[0] == k1.shape[0] * n_rep,
            keys1.shape[1] == k1.shape[1],
            keys1.shape[2] == k1.shape[2],
    ;
    lemma_attention_weights_unique(q1, keys1, a.head_dim, weights1, weights2);
    lemma_batched_matmul_unique(weights1, values1, mixed1, mixed2);
    lemma_batched_matmul_wf(weights1, values1, mixed1);
    lemma_merge_heads_unique(mixed1, merged1, merged2);
    lemma_matmul_unique(merged1, a.wo, r1, r2);
}

/// The heads of a projection come as `heads` blocks.
proof fn lemma_head_projection_shape<T: Scalar>(
    x: TensorView<T>,
    w: TensorView<T>,
    adapter: Option<LoraAdapterView<T>>,
    heads: usize,
    head_dim: usize,
    rotary: Option<usize>,
    r: TensorView<T>,
)
    requires
        head_projection_rel(x, w, adapter, heads, head_dim, rotary, r),
    ensures
        r.shape.len() == 3,
        r.shape[0] == heads,
{
}

/// With deterministic operations the gated feed-forward block of a layer
/// has one output.
pub proof fn lemma_feed_forward_unique<T: Scalar>(
    l: DecoderLayerView<T>,
    x: TensorView<T>,
    r1: TensorView<T>,
    r2: TensorView<T>,
)
    requires
        deterministic::<T>(),
        feed_forward_rel(l, x, r1),
        feed_forward_rel(l, x, r2),
    ensures
        r1 == r2,
{
    let (pre1, gate1, up1, hidden1) = choose|
        pre: TensorView<T>,
        gate: TensorView<T>,
        up: TensorView<T>,
        hidden: TensorView<T>,
    |
        #[trigger] projection_rel(x, l.w1, l.lora_w1, pre) && #[trigger] map_silu_rel(pre, gate)
            && #[trigger] projection_rel(x, l.w3, l.lora_w3, up) && #[trigger] zip_rel(
            BinaryOp::Mul,
            gate,
            up,
            hidden,
        ) && projection_rel(hidden, l.w2, l.lora_w2, r1);
    let (pre2, gate2, up2, hidden2) = choose|
        pre: TensorView<T>,
        gate: TensorView<T>,
        up: TensorView<T>,
        hidden: TensorView<T>,
    |
        #[trigger] projection_rel(x, l.w1, l.lora_w1, pre) && #[trigger] map_silu_rel(pre, gate)
            && #[trigger] projection_rel(x, l.w3, l.lora_w3, up) && #[trigger] zip_rel(
            BinaryOp::Mul,
            gate,
            up,
            hidden,
        ) && projection_rel(hidden, l.w2, l.lora_w2, r2);
    lemma_projection_unique(x, l.w1, l.lora_w1, pre1, pre2);
    lemma_map_silu_unique(pre1, gate1, gate2);
    lemma_projection_unique(x, l.w3, l.lora_w3, up1, up2);
    lemma_zip_unique(BinaryOp::Mul, gate1, up1, hidden1, hidden2);
    lemma_projection_unique(hidden1, l.w2, l.lora_w2, r1, r2);
}

/// With deterministic operations a decoder layer has one output, which
/// holds as many elements as its dimensions call for.
pub proof fn lemma_decoder_unique<T: Scalar>(
    l: DecoderLayerView<T>,
    x: TensorView<T>,
    r1: TensorView<T>,
    r2: TensorView<T>,
)
    requires
        deterministic::<T>(),
        l.consistent(),
        x.wf(),
        x.shape.len() >= 1,
        decoder_rel(l, x, r1),
        decoder_rel(l, x, r2),
    ensures
        r1 == r2,
        r1.wf(),
        r1.shape.len() >= 1,
{
    let (eps1, normed1, attended1, h1, h_normed1, fed1) = choose|
        eps: T,
        normed: TensorView<T>,
        attended: TensorView<T>,
        h: TensorView<T>,
        h_normed: TensorView<T>,
        fed: TensorView<T>,
    |
        norm_eps_rel(eps) && #[trigger] rmsnorm_rel(x, l.attention_norm, eps, normed)
            && #[trigger] attention_rel(l.self_attn, normed, attended) && #[trigger] zip_rel(
            BinaryOp::Add,
            x,
            attended,
            h,
        ) && #[trigger] rmsnorm_rel(h, l.ffn_norm, eps, h_normed) && #[trigger] feed_forward_rel(
            l,
            h_normed,
            fed,
        ) && zip_rel(BinaryOp::Add, h, fed, r1);
    let (eps2, normed2, attended2, h2, h_normed2, fed2) = choose|
        eps: T,
        normed: TensorView<T>,
        attended: TensorView<T>,
        h: TensorView<T>,
        h_normed: TensorView<T>,
        fed: TensorView<T>,
    |
        norm_eps_rel(eps) && #[trigger] rmsnorm_rel(x, l.attention_norm, eps, normed)
            && #[trigger] attention_rel(l.self_attn, normed, attended) && #[trigger] zip_rel(
            BinaryOp::Add,
            x,
            attended,
            h,
        ) && #[trigger] rmsnorm_rel(h, l.ffn_norm, eps, h_normed) && #[trigger] feed_forward_rel(
            l,
            h_normed,
            fed,
        ) && zip_rel(BinaryOp::Add, h, fed, r2);
    lemma_norm_eps_unique(eps1, eps2);
    lemma_rmsnorm_unique(x, l.attention_norm, eps1, normed1, normed2);
    lemma_attention_unique(l.self_attn, normed1, attended1, attended2);
    lemma_zip_unique(BinaryOp::Add, x, attended1, h1, h2);
    lemma_rmsnorm_unique(h1, l.ffn_norm, eps1, h_normed1, h_normed2);
    lemma_feed_forward_unique(l, h_normed1, fed1, fed2);
    lemma_zip_unique(BinaryOp::Add, h1, fed1, r1, r2);
}

/// With deterministic operations a run of decoder layers has one output,
/// which holds as many elements as its dimensions call for.
pub proof fn lemma_layers_unique<T: Scalar>(
    layers: Seq<DecoderLayerView<T>>,
    k: nat,
    x: TensorView<T>,
    r1: TensorView<T>,
    r2: TensorView<T>,
)
    requires
        deterministic::<T>(),
        k <= layers.len(),
        forall|i: int| 0 <= i < layers.len() ==> (#[trigger] layers[i]).consistent(),
        x.wf(),
        x.shape.len() >= 1,
        layers_rel(layers, k, x, r1),
        layers_rel(layers, k, x, r2),
    ensures
        r1 == r2,
        r1.wf(),
        r1.shape.len() >= 1,
    decreases k,
{
    if k > 0 {
        let mid1 = choose|mid: TensorView<T>|
            layers_rel(layers, (k - 1) as nat, x, mid) && #[trigger] decoder_rel(layers[k - 1], mid, r1);
        let mid2 = choose|mid: TensorView<T>|
            layers_rel(layers, (k - 1) as nat, x, mid) && #[trigger] decoder_rel(layers[k - 1], mid, r2);
        lemma_layers_unique(layers, (k - 1) as nat, x, mid1, mid2);
        lemma_decoder_unique(layers[k - 1], mid1, r1, r2);
    }
}

/// With deterministic operations a model has one output for given tokens.
pub proof fn lemma_model_unique<T: Scalar>(
    m: ModelView<T>,
    x: Seq<usize>,
    r1: TensorView<T>,
    r2: TensorView<T>,
)
    requires
        deterministic::<T>(),
        m.consistent(),
        x.len() <= usize::MAX,
        model_rel(m, x, r1),
        model_rel(m, x, r2),
    ensures
        r1 == r2,
{
    let (embedded1, h1, eps1, normed1) = choose|
        embedded: TensorView<T>,
        h: TensorView<T>,
        eps: T,
        normed: TensorView<T>,
    |
        #[trigger] select_rel(m.embedding, x, embedded) && #[trigger] layers_rel(
            m.layers,
            m.layers.len(),
            embedded,
            h,
        ) && norm_eps_rel(eps) && #[trigger] rmsnorm_rel(h, m.norm, eps, normed) && matmul_rel(
            normed,
            m.output,
            r1,
        );
    let (embedded2, h2, eps2, normed2) = choose|
        embedded: TensorView<T>,
        h: TensorView<T>,
        eps: T,
        normed: TensorView<T>,
    |
        #[trigger] select_rel(m.embedding, x, embedded) && #[trigger] layers_rel(
            m.layers,
            m.layers.len(),
            embedded,
            h,
        ) && norm_eps_rel(eps) && #[trigger] rmsnorm_rel(h, m.norm, eps, normed) && matmul_rel(
            normed,
            m.output,
            r2,
        );
    lemma_select_unique(m.embedding, x, embedded1, embedded2);
    lemma_size_2(embedded1.shape);
    lemma_layers_unique(m.layers, m.layers.len(), embedded1, h1, h2);
    lemma_norm_eps_unique(eps1, eps2);
    lemma_rmsnorm_unique(h1, m.norm, eps1, normed1, normed2);
    lemma_matmul_unique(normed1, m.output, r1, r2);
}

/// Query heads of one group attend alike where their queries agree.
///
/// The keys `keys` hold each head of `k` `n_rep` times in a row, and `w`
/// holds the attention weights of the queries `q` over them. Then, with
/// deterministic operations, two query heads `h1` and `h2` that are served
/// by one head of `k` and hold the same queries hold the same weights.
pub proof fn lemma_group_attends_alike<T: Scalar>(
    q: TensorView<T>,
    k: TensorView<T>,
    n_rep: usize,
    keys: TensorView<T>,
    head_dim: usize,
    w: TensorView<T>,
    h1: int,
    h2: int,
)
    requires
        deterministic::<T>(),
        k.shape.len() == 3,
        n_rep > 0,
        q.shape == seq![(k.shape[0] * n_rep) as usize, k.shape[1], k.shape[2]],
        k.shape[0] * n_rep <= usize::MAX,
        repeat_rel(k, n_rep, keys),
        attention_weights_rel(q, keys, head_dim, w),
        0 <= h1 < k.shape[0] * n_rep,
        0 <= h2 < k.shape[0] * n_rep,
        h1 / (n_rep as int) == h2 / (n_rep as int),
        forall|t: int, c: int|
            0 <= t < k.shape[1] && 0 <= c < k.shape[2] ==> #[trigger] at3(
                q.data,
                k.shape[1] as int,
                k.shape[2] as int,
                h1,
                t,
                c,
            ) == at3(q.data, k.shape[1] as int, k.shape[2] as int, h2, t, c),
    ensures
        forall|i: int, j: int|
            0 <= i < k.shape[1] && 0 <= j < k.shape[1] ==> #[trigger] at3(
                w.data,
                k.shape[1] as int,
                k.shape[1] as int,
                h1,
                i,
                j,
            ) == at3(w.data, k.shape[1] as int, k.shape[1] as int, h2, i, j),
{
    let n = k.shape[0] * n_rep;
    let s = k.shape[1] as int;
    let hd = k.shape[2] as int;
    let block = s * hd;
    let (kt, scores, root, scaled) = choose|
        kt: TensorView<T>,
        scores: TensorView<T>,
        root: T,
        scaled: TensorView<T>,
    |
        #[trigger] swap12_rel(keys, kt) && #[trigger] batched_matmul_rel(q, kt, scores) && head_scale_rel(
            head_dim,
            root,
        ) && #[trigger] div_scalar_rel(scores, root, scaled) && softmax_rel(scaled, 2, w);
    lemma_repeat_shares_group(k, n_rep, keys, h1, h2);
    assert(kt.shape =~= seq![n as usize, k.shape[2], k.shape[1]]);
    assert(scores.shape =~= seq![n as usize, k.shape[1], k.shape[1]]);
    assert(scaled.shape == scores.shape);
    assert(scaled.shape.take(2) =~= seq![n as usize, k.shape[1]]);
    lemma_size_2(scaled.shape.take(2));
    assert(scaled.shape.skip(3).len() == 0);
    assert(shape_size(scaled.shape.skip(3)) == 1);
    assert forall|i: int, j: int| 0 <= i < s && 0 <= j < s implies #[trigger] at3(w.data, s, s, h1, i, j)
        == at3(w.data, s, s, h2, i, j) by {
        assert forall|a: int| 0 <= a < s implies at3(scaled.data, s, s, h1, i, a) == at3(
            scaled.data,
            s,
            s,
            h2,
            i,
            a,
        ) by {
            let u1 = strided(q.data, (h1 * s + i) * hd, 1, hd as nat);
            let u2 = strided(q.data, (h2 * s + i) * hd, 1, hd as nat);
            assert forall|c: int| 0 <= c < hd implies u1[c] == u2[c] by {
                assert(at3(q.data, s, hd, h1, i, c) == at3(q.data, s, hd, h2, i, c));
            }
            assert(u1 =~= u2);
            let v1 = strided(kt.data, (h1 * hd) * s + a, s, hd as nat);
            let v2 = strided(kt.data, (h2 * hd) * s + a, s, hd as nat);
            assert forall|c: int| 0 <= c < hd implies v1[c] == v2[c] by {
                assert((h1 * hd) * s + a + c * s == (h1 * hd + c) * s + a) by (nonlinear_arith);
                assert((h2 * hd) * s + a + c * s == (h2 * hd + c) * s + a) by (nonlinear_arith);
                assert(at3(kt.data, hd, s, h1, c, a) == at3(keys.data, s, hd, h1, a, c));
                assert(at3(kt.data, hd, s, h2, c, a) == at3(keys.data, s, hd, h2, a, c));
                assert((h1 * s + a) * hd + c == h1 * block + (a * hd + c)) by (nonlinear_arith)
                    requires
                        block == s * hd,
                ;
                assert((h2 * s + a) * hd + c == h2 * block + (a * hd + c)) by (nonlinear_arith)
                    requires
                        block == s * hd,
                ;
                lemma_index2(a, c, s, hd);
                assert(at2(keys.data, block, h1, a * hd + c) == at2(keys.data, block, h2, a * hd + c));
            }
            assert(v1 =~= v2);
            lemma_dot_unique(
                u1,
                v1,
                hd as nat,
                at3(scores.data, s, s, h1, i, a),
                at3(scores.data, s, s, h2, i, a),
            );
            lemma_index3(h1, i, a, n, s, s);
            lemma_index3(h2, i, a, n, s, s);
            let pa = (h1 * s + i) * s + a;
            let pb = (h2 * s + i) * s + a;
            assert(call_ensures(T::div, (scores.data[pa], root), scaled.data[pa]));
            assert(call_ensures(T::div, (scores.data[pb], root), scaled.data[pb]));
        }
        let o1 = h1 * s + i;
        let o2 = h2 * s + i;
        lemma_index2(h1, i, n, s);
        lemma_index2(h2, i, n, s);
        let x1 = lane(scaled.data, s, 1, o1, 0);
        let x2 = lane(scaled.data, s, 1, o2, 0);
        assert forall|a: int| 0 <= a < s implies x1[a] == x2[a] by {
            assert(at3(scaled.data, s, s, h1, i, a) == at3(scaled.data, s, s, h2, i, a));
        }
        assert(x1 =~= x2);
        lemma_softmax_lane_unique(x1, lane(w.data, s, 1, o1, 0), lane(w.data, s, 1, o2, 0));
        assert(lane(w.data, s, 1, o1, 0)[j] == at3(w.data, s, s, h1, i, j));
        assert(lane(w.data, s, 1, o2, 0)[j] == at3(w.data, s, s, h2, i, j));
    }
}

/// Query heads of one group hand on the same where their weights agree.
///
/// The values `values` hold each head of `v` `n_rep` times in a row,
/// `mixed` holds the values averaged by the attention weights `weights`,
/// and `merged` holds the heads of `mixed` side by side. Then, with
/// deterministic operations, two query heads `h1` and `h2` that are served
/// by one head of `v` and hold the same weights fill their columns of
/// `merged` alike.
pub proof fn lemma_group_hands_on_alike<T: Scalar>(
    weights: TensorView<T>,
    v: TensorView<T>,
    n_rep: usize,
    values: TensorView<T>,
    mixed: TensorView<T>,
    merged: TensorView<T>,
    h1: int,
    h2: int,
)
    requires
        deterministic::<T>(),
        v.shape.len() == 3,
        n_rep > 0,
        v.shape[0] * n_rep <= usize::MAX,
        weights.shape == seq![(v.shape[0] * n_rep) as usize, v.shape[1], v.shape[1]],
        repeat_rel(v, n_rep, values),
        batched_matmul_rel(weights, values, mixed),
        merge_heads_rel(mixed, merged),
        0 <= h1 < v.shape[0] * n_rep,
        0 <= h2 < v.shape[0] * n_rep,
        h1 / (n_rep as int) == h2 / (n_rep as int),
        forall|i: int, j: int|
            0 <= i < v.shape[1] && 0 <= j < v.shape[1] ==> #[trigger] at3(
                weights.data,
                v.shape[1] as int,
                v.shape[1] as int,
                h1,
                i,
                j,
            ) == at3(weights.data, v.shape[1] as int, v.shape[1] as int, h2, i, j),
    ensures
        forall|t: int, d: int|
            0 <= t < v.shape[1] && 0 <= d < v.shape[2] ==> #[trigger] at3(
                merged.data,
                v.shape[0] * n_rep,
                v.shape[2] as int,
                t,
                h1,
                d,
            ) == at3(merged.data, v.shape[0] * n_rep, v.shape[2] as int, t, h2, d),
{
    let n = v.shape[0] * n_rep;
    let s = v.shape[1] as int;
    let hd = v.shape[2] as int;
    let block = s * hd;
    lemma_repeat_shares_group(v, n_rep, values, h1, h2);
    assert forall|t: int, d: int| 0 <= t < s && 0 <= d < hd implies #[trigger] at3(
        merged.data,
        n,
        hd,
        t,
        h1,
        d,
    ) == at3(merged.data, n, hd, t, h2, d) by {
        let u1 = strided(weights.data, (h1 * s + t) * s, 1, s as nat);
        let u2 = strided(weights.data, (h2 * s + t) * s, 1, s as nat);
        assert forall|c: int| 0 <= c < s implies u1[c] == u2[c] by {
            assert(at3(weights.data, s, s, h1, t, c) == at3(weights.data, s, s, h2, t, c));
        }
        assert(u1 =~= u2);
        let v1 = strided(values.data, (h1 * s) * hd + d, hd, s as nat);
        let v2 = strided(values.data, (h2 * s) * hd + d, hd, s as nat);
        assert forall|c: int| 0 <= c < s implies v1[c] == v2[c] by {
            assert((h1 * s) * hd + d + c * hd == h1 * block + (c * hd + d)) by (nonlinear_arith)
                requires
                    block == s * hd,
            ;
            assert((h2 * s) * hd + d + c * hd == h2 * block + (c * hd + d)) by (nonlinear_arith)
                requires
                    block == s * hd,
            ;
            lemma_index2(c, d, s, hd);
            assert(at2(values.data, block, h1, c * hd + d) == at2(values.data, block, h2, c * hd + d));
        }
        assert(v1 =~= v2);
        lemma_dot_unique(
            u1,
            v1,
            s as nat,
            at3(mixed.data, s, hd, h1, t, d),
            at3(mixed.data, s, hd, h2, t, d),
        );
        assert(at3(merged.data, n, hd, t, h1, d) == at3(mixed.data, s, hd, h1, t, d));
        assert(at3(merged.data, n, hd, t, h2, d) == at3(mixed.data, s, hd, h2, t, d));
    }
}

/// With deterministic operations, columns of a weight that agree give
/// columns of the product that agree.
pub proof fn lemma_equal_columns_project_alike<T: Scalar>(
    x: TensorView<T>,
    w: TensorView<T>,
    r: TensorView<T>,
    c1: int,
    c2: int,
)
    requires
        deterministic::<T>(),
        matmul_rel(x, w, r),
        0 <= c1 < w.shape[1],
        0 <= c2 < w.shape[1],
        forall|k: int|
            0 <= k < w.shape[0] ==> #[trigger] at2(w.data, w.shape[1] as int, k, c1) == at2(
                w.data,
                w.shape[1] as int,
                k,
                c2,
            ),
    ensures
        forall|t: int|
            0 <= t < x.shape[0] ==> #[trigger] at2(r.data, w.shape[1] as int, t, c1) == at2(
                r.data,
                w.shape[1] as int,
                t,
                c2,
            ),
{
    let n = w.shape[1] as int;
    let col1 = matrix_col(w, c1);
    let col2 = matrix_col(w, c2);
    assert forall|k: int| 0 <= k < w.shape[0] implies col1[k] == col2[k] by {
        assert(col1[k] == at2(w.data, n, k, c1));
        assert(col2[k] == at2(w.data, n, k, c2));
    }
    assert(col1 =~= col2);
    assert forall|t: int| 0 <= t < x.shape[0] implies #[trigger] at2(r.data, n, t, c1) == at2(
        r.data,
        n,
        t,
        c2,
    ) by {
        lemma_dot_unique(
            matrix_row(x, t),
            col1,
            x.shape[1] as nat,
            at2(r.data, n, t, c1),
            at2(r.data, n, t, c2),
        );
    }
}

/// The rotary embedding over no features leaves a tensor as it is.
pub proof fn lemma_rope_tokens_over_nothing<T: Scalar>(
    x: TensorView<T>,
    base: usize,
    theta: T,
    r: TensorView<T>,
)
    requires
        x.wf(),
        x.shape.len() >= 1,
        rope_tokens_rel(x, base, 0, theta, r),
    ensures
        r == x,
{
    let d = x.shape.last() as int;
    lemma_whole_rows(x);
    assert forall|t: int| 0 <= t < row_count(r.data.len(), d) implies #[trigger] row_of(r.data, d, t)
        == row_of(x.data, d, t) by {
        let xs = row_of(x.data, d, t);
        let ys = row_of(r.data, d, t);
        assert(rope_at_rel(xs, (base + t) as usize, 0, theta, ys));
        let (cos, sin) = choose|cos: Seq<T>, sin: Seq<T>|
            #[trigger] rope_table_rel(0, (base + t) as usize, theta, cos, sin) && rope_row_rel(
                xs,
                cos,
                sin,
                ys,
            );
        assert(cos.len() == 0);
        assert forall|j: int| 0 <= j < xs.len() implies ys[j] == xs[j] by {}
        assert(ys =~= xs);
    }
    lemma_rows_equal(r.data, x.data, d);
}

/// Query heads of one group give the same where their query weights
/// agree.
///
/// The block has no rotary embedding and no adapter on its queries, and its
/// output projection is the identity. Then, with deterministic operations
/// for which zero absorbs and zero and one are neutral, two query heads
/// `h1` and `h2` of one group whose columns of the query weight agree fill
/// their columns of the block's output alike.
pub proof fn lemma_group_gives_alike<T: Scalar>(
    a: AttentionView<T>,
    x: TensorView<T>,
    r: TensorView<T>,
    h1: int,
    h2: int,
)
    requires
        deterministic::<T>(),
        zero_absorbs::<T>(),
        zero_is_neutral::<T>(),
        one_is_neutral::<T>(),
        a.consistent(),
        a.rotary_dim == 0,
        a.lora_q is None,
        is_identity(a.wo),
        attention_rel(a, x, r),
        0 <= h1 < a.n_heads,
        0 <= h2 < a.n_heads,
        h1 / ((a.n_heads / a.n_kv_heads) as int) == h2 / ((a.n_heads / a.n_kv_heads) as int),
        forall|k: int, d: int|
            0 <= k < a.in_dim() && 0 <= d < a.head_dim ==> #[trigger] at3(
                a.wq.data,
                a.n_heads as int,
                a.head_dim as int,
                k,
                h1,
                d,
            ) == at3(a.wq.data, a.n_heads as int, a.head_dim as int, k, h2, d),
    ensures
        r.shape == seq![x.shape[0], (a.n_heads * a.head_dim) as usize],
        forall|t: int, d: int|
            0 <= t < x.shape[0] && 0 <= d < a.head_dim ==> #[trigger] at3(
                r.data,
                a.n_heads as int,
                a.head_dim as int,
                t,
                h1,
                d,
            ) == at3(r.data, a.n_heads as int, a.head_dim as int, t, h2, d),
{
    let n = a.n_heads as int;
    let g = a.n_kv_heads as int;
    let hd = a.head_dim as int;
    let s = x.shape[0] as int;
    let n_rep = (a.n_heads / a.n_kv_heads) as usize;
    lemma_fundamental_div_mod(n, g);
    assert(g * n_rep == n) by (nonlinear_arith)
        requires
            n == g * (n / g) + n % g,
            n % g == 0,
            n_rep == n / g,
    ;
    assert(n_rep > 0) by (nonlinear_arith)
        requires
            g * n_rep == n,
            n >= 1,
            n_rep >= 0,
    ;
    let (q, k, keys, v, values, weights, mixed, merged) = choose|
        q: TensorView<T>,
        k: TensorView<T>,
        keys: TensorView<T>,
        v: TensorView<T>,
        values: TensorView<T>,
        weights: TensorView<T>,
        mixed: TensorView<T>,
        merged: TensorView<T>,
    |
        #[trigger] head_projection_rel(x, a.wq, a.lora_q, a.n_heads, a.head_dim, Some(a.rotary_dim), q)
            && #[trigger] head_projection_rel(
            x,
            a.wk,
            a.lora_k,
            a.n_kv_heads,
            a.head_dim,
            Some(a.rotary_dim),
            k,
        ) && #[trigger] repeat_rel(k, n_rep, keys) && #[trigger] head_projection_rel(
            x,
            a.wv,
            a.lora_v,
            a.n_kv_heads,
            a.head_dim,
            None,
            v,
        ) && #[trigger] repeat_rel(v, n_rep, values) && #[trigger] attention_weights_rel(
            q,
            keys,
            a.head_dim,
            weights,
        ) && #[trigger] batched_matmul_rel(weights, values, mixed) && #[trigger] merge_heads_rel(
            mixed,
            merged,
        ) && matmul_rel(merged, a.wo, r);
    lemma_head_projection_rows(x, a.wq, a.lora_q, a.n_heads, a.head_dim, Some(a.rotary_dim), q);
    lemma_head_projection_rows(x, a.wk, a.lora_k, a.n_kv_heads, a.head_dim, Some(a.rotary_dim), k);
    lemma_head_projection_rows(x, a.wv, a.lora_v, a.n_kv_heads, a.head_dim, None, v);
    // The queries of the two heads agree.
    let (p, turned) = choose|p: TensorView<T>, turned: TensorView<T>|
        #[trigger] projection_rel(x, a.wq, a.lora_q, p) && turned_rel(p, Some(a.rotary_dim), turned)
            && #[trigger] split_heads_rel(turned, a.n_heads, a.head_dim, q);
    lemma_projection_shape(x, a.wq, a.lora_q, p);
    assert(rotary_rel(p, a.rotary_dim, turned));
    let theta = choose|theta: T|
        call_ensures(T::from_usize, (ROPE_THETA,), theta) && #[trigger] rope_tokens_rel(
            p,
            0,
            a.rotary_dim,
            theta,
            turned,
        );
    lemma_rope_tokens_over_nothing(p, 0, theta, turned);
    assert forall|t: int, d: int| 0 <= t < s && 0 <= d < hd implies #[trigger] at3(
        q.data,
        s,
        hd,
        h1,
        t,
        d,
    ) == at3(q.data, s, hd, h2, t, d) by {
        let c1 = h1 * hd + d;
        let c2 = h2 * hd + d;
        lemma_index2(h1, d, n, hd);
        lemma_index2(h2, d, n, hd);
        assert forall|kk: int| 0 <= kk < a.wq.shape[0] implies #[trigger] at2(a.wq.data, n * hd, kk, c1)
            == at2(a.wq.data, n * hd, kk, c2) by {
            assert(at3(a.wq.data, n, hd, kk, h1, d) == at3(a.wq.data, n, hd, kk, h2, d));
            assert((kk * n + h1) * hd + d == kk * (n * hd) + c1) by (nonlinear_arith)
                requires
                    c1 == h1 * hd + d,
            ;
            assert((kk * n + h2) * hd + d == kk * (n * hd) + c2) by (nonlinear_arith)
                requires
                    c2 == h2 * hd + d,
            ;
        }
        lemma_equal_columns_project_alike(x, a.wq, p, c1, c2);
        assert(at2(p.data, n * hd, t, c1) == at2(p.data, n * hd, t, c2));
        assert((t * n + h1) * hd + d == t * (n * hd) + c1) by (nonlinear_arith)
            requires
                c1 == h1 * hd + d,
        ;
        assert((t * n + h2) * hd + d == t * (n * hd) + c2) by (nonlinear_arith)
            requires
                c2 == h2 * hd + d,
        ;
        assert(at3(q.data, s, hd, h1, t, d) == at3(turned.data, n, hd, t, h1, d));
        assert(at3(q.data, s, hd, h2, t, d) == at3(turned.data, n, hd, t, h2, d));
    }
    // So do their weights, and what they hand on.
    assert(q.shape =~= seq![(k.shape[0] * n_rep) as usize, k.shape[1], k.shape[2]]);
    lemma_group_attends_alike(q, k, n_rep, keys, a.head_dim, weights, h1, h2);
    let (kt, scores, root, scaled) = choose|
        kt: TensorView<T>,
        scores: TensorView<T>,
        root: T,
        scaled: TensorView<T>,
    |
        #[trigger] swap12_rel(keys, kt) && #[trigger] batched_matmul_rel(q, kt, scores) && head_scale_rel(
            a.head_dim,
            root,
        ) && #[trigger] div_scalar_rel(scores, root, scaled) && softmax_rel(scaled, 2, weights);
    assert(kt.shape =~= seq![keys.shape[0], keys.shape[2], keys.shape[1]]);
    assert(weights.shape =~= seq![(v.shape[0] * n_rep) as usize, v.shape[1], v.shape[1]]);
    lemma_group_hands_on_alike(weights, v, n_rep, values, mixed, merged, h1, h2);
    // The identity hands it through.
    lemma_batched_matmul_wf(weights, values, mixed);
    lemma_size_3(mixed.shape);
    assert(merged.shape =~= seq![x.shape[0], (n * hd) as usize]);
    lemma_size_2(merged.shape);
    assert(merged.wf()) by (nonlinear_arith)
        requires
            merged.data.len() == mixed.data.len(),
            mixed.data.len() == mixed.shape[0] * mixed.shape[1] * mixed.shape[2],
            mixed.shape[0] == n,
            mixed.shape[1] == s,
            mixed.shape[2] == hd,
            shape_size(merged.shape) == merged.shape[0] * merged.shape[1],
            merged.shape[0] == s,
            merged.shape[1] == n * hd,
    ;
    lemma_matmul_with_identity(merged, a.wo, r);
}

} // verus!
