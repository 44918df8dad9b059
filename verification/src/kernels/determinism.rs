use vstd::prelude::*;
use crate::determinism::{deterministic, lemma_map_silu_unique, lemma_matmul_unique, lemma_zip_unique};
use crate::elementwise::{map_silu_rel, zip_rel, BinaryOp};
use crate::kernels::fast_lora::{
    lora_mlp_rel, lora_rel, projection_rel, LoraAdapterView, LoraLinearView, LoraMlpView,
};
use crate::matmul::matmul_rel;
use crate::scalar::Scalar;
use crate::tensor::TensorView;

verus! {

/// With deterministic operations a linear layer with an adapter has one
/// output.
pub proof fn lemma_lora_unique<T: Scalar>(
    l: LoraLinearView<T>,
    x: TensorView<T>,
    r1: TensorView<T>,
    r2: TensorView<T>,
)
    requires
        deterministic::<T>(),
        lora_rel(l, x, r1),
        lora_rel(l, x, r2),
    ensures
        r1 == r2,
{
    let (main1, down1, adapter1) = choose|
        main: TensorView<T>,
        down: TensorView<T>,
        adapter: TensorView<T>,
    |
        #[trigger] matmul_rel(x, l.weight, main) && #[trigger] matmul_rel(x, l.lora_a, down)
            && #[trigger] matmul_rel(down, l.lora_b, adapter) && zip_rel(BinaryOp::Add, main, adapter, r1);
    let (main2, down2, adapter2) = choose|
        main: TensorView<T>,
        down: TensorView<T>,
        adapter: TensorView<T>,
    |
        #[trigger] matmul_rel(x, l.weight, main) && #[trigger] matmul_rel(x, l.lora_a, down)
            && #[trigger] matmul_rel(down, l.lora_b, adapter) && zip_rel(BinaryOp::Add, main, adapter, r2);
    lemma_matmul_unique(x, l.weight, main1, main2);
    lemma_matmul_unique(x, l.lora_a, down1, down2);
    lemma_matmul_unique(down1, l.lora_b, adapter1, adapter2);
    lemma_zip_unique(BinaryOp::Add, main1, adapter1, r1, r2);
}

/// With deterministic operations a projection by a weight and its
/// adapter, where there is one, has one outcome.
pub proof fn lemma_projection_unique<T: Scalar>(
    x: TensorView<T>,
    w: TensorView<T>,
    adapter: Option<LoraAdapterView<T>>,
    r1: TensorView<T>,
    r2: TensorView<T>,
)
    requires
        deterministic::<T>(),
        projection_rel(x, w, adapter, r1),
        projection_rel(x, w, adapter, r2),
    ensures
        r1 == r2,
{
    match adapter {
        Some(ad) => {
            lemma_lora_unique(
                LoraLinearView { weight: w, lora_a: ad.lora_a, lora_b: ad.lora_b },
                x,
                r1,
                r2,
            );
        },
        None => {
            lemma_matmul_unique(x, w, r1, r2);
        },
    }
}

/// With deterministic operations a feed-forward block with adapters has
/// one output.
pub proof fn lemma_lora_mlp_unique<T: Scalar>(
    m: LoraMlpView<T>,
    x: TensorView<T>,
    r1: TensorView<T>,
    r2: TensorView<T>,
)
    requires
        deterministic::<T>(),
        lora_mlp_rel(m, x, r1),
        lora_mlp_rel(m, x, r2),
    ensures
        r1 == r2,
{
    let (pre1, gate1, up1, hidden1) = choose|
        pre: TensorView<T>,
        gate: TensorView<T>,
        up: TensorView<T>,
        hidden: TensorView<T>,
    |
        #[trigger] lora_rel(m.gate, x, pre) && #[trigger] map_silu_rel(pre, gate) && #[trigger] lora_rel(
            m.up,
            x,
            up,
        ) && #[trigger] zip_rel(BinaryOp::Mul, gate, up, hidden) && lora_rel(m.down, hidden, r1);
    let (pre2, gate2, up2, hidden2) = choose|
        pre: TensorView<T>,
        gate: TensorView<T>,
        up: TensorView<T>,
        hidden: TensorView<T>,
    |
        #[trigger] lora_rel(m.gate, x, pre) && #[trigger] map_silu_rel(pre, gate) && #[trigger] lora_rel(
            m.up,
            x,
            up,
        ) && #[trigger] zip_rel(BinaryOp::Mul, gate, up, hidden) && lora_rel(m.down, hidden, r2);
    lemma_lora_unique(m.gate, x, pre1, pre2);
    lemma_map_silu_unique(pre1, gate1, gate2);
    lemma_lora_unique(m.up, x, up1, up2);
    lemma_zip_unique(BinaryOp::Mul, gate1, up1, hidden1, hidden2);
    lemma_lora_unique(m.down, hidden1, r1, r2);
}

} // verus!
