//! The model graph spelled out by the names of its tensors.

use crate::model;
use crate::model::{ModelLoadError, Qwen2Layer, Qwen2Model};
use crate::tensor::Tensor;
use crate::tensor_names;
use vstd::prelude::*;

verus! {

/// A layer comes from `m` when each of its fields is the tensor that `m` has
/// under that field's name.
pub proof fn layer_fields_by_name(layer: Qwen2Layer, m: Map<Seq<char>, Tensor>, i: nat)
    ensures
        layer.comes_from(m, i as int) <==> {
            &&& layer.input_layernorm_weight == m[tensor_names::layer_tensor_name(
                i,
                "input_layernorm.weight"@,
            )]
            &&& layer.q_proj_weight == m[tensor_names::layer_tensor_name(
                i,
                "self_attn.q_proj.weight"@,
            )]
            &&& layer.q_proj_bias == m[tensor_names::layer_tensor_name(
                i,
                "self_attn.q_proj.bias"@,
            )]
            &&& layer.k_proj_weight == m[tensor_names::layer_tensor_name(
                i,
                "self_attn.k_proj.weight"@,
            )]
            &&& layer.k_proj_bias == m[tensor_names::layer_tensor_name(
                i,
                "self_attn.k_proj.bias"@,
            )]
            &&& layer.v_proj_weight == m[tensor_names::layer_tensor_name(
                i,
                "self_attn.v_proj.weight"@,
            )]
            &&& layer.v_proj_bias == m[tensor_names::layer_tensor_name(
                i,
                "self_attn.v_proj.bias"@,
            )]
            &&& layer.o_proj_weight == m[tensor_names::layer_tensor_name(
                i,
                "self_attn.o_proj.weight"@,
            )]
            &&& layer.post_attention_layernorm_weight == m[tensor_names::layer_tensor_name(
                i,
                "post_attention_layernorm.weight"@,
            )]
            &&& layer.gate_proj_weight == m[tensor_names::layer_tensor_name(
                i,
                "mlp.gate_proj.weight"@,
            )]
            &&& layer.up_proj_weight == m[tensor_names::layer_tensor_name(
                i,
                "mlp.up_proj.weight"@,
            )]
            &&& layer.down_proj_weight == m[tensor_names::layer_tensor_name(
                i,
                "mlp.down_proj.weight"@,
            )]
        },
{
    tensor_names::layer_keys_in_order(i);
    if layer.comes_from(m, i as int) {
        assert(layer.tensors()[0] == m[tensor_names::layer_key(i as int, 0)]);
        assert(layer.tensors()[1] == m[tensor_names::layer_key(i as int, 1)]);
        assert(layer.tensors()[2] == m[tensor_names::layer_key(i as int, 2)]);
        assert(layer.tensors()[3] == m[tensor_names::layer_key(i as int, 3)]);
        assert(layer.tensors()[4] == m[tensor_names::layer_key(i as int, 4)]);
        assert(layer.tensors()[5] == m[tensor_names::layer_key(i as int, 5)]);
        assert(layer.tensors()[6] == m[tensor_names::layer_key(i as int, 6)]);
        assert(layer.tensors()[7] == m[tensor_names::layer_key(i as int, 7)]);
        assert(layer.tensors()[8] == m[tensor_names::layer_key(i as int, 8)]);
        assert(layer.tensors()[9] == m[tensor_names::layer_key(i as int, 9)]);
        assert(layer.tensors()[10] == m[tensor_names::layer_key(i as int, 10)]);
        assert(layer.tensors()[11] == m[tensor_names::layer_key(i as int, 11)]);
    }
}

/// A model comes from `m` when it has 28 layers and each tensor is the one that
/// `m` has under that tensor's name.
pub proof fn model_tensors_by_name(model: Qwen2Model, m: Map<Seq<char>, Tensor>)
    ensures
        model.comes_from(m) <==> {
            &&& model.embed_tokens == m["model.embed_tokens.weight"@]
            &&& model.layers@.len() == 28
            &&& forall|i: int| 0 <= i < 28 ==> {
                let layer = #[trigger] model.layers@[i];
                &&& layer.input_layernorm_weight == m[tensor_names::layer_tensor_name(
                    i as nat,
                    "input_layernorm.weight"@,
                )]
                &&& layer.q_proj_weight == m[tensor_names::layer_tensor_name(
                    i as nat,
                    "self_attn.q_proj.weight"@,
                )]
                &&& layer.q_proj_bias == m[tensor_names::layer_tensor_name(
                    i as nat,
                    "self_attn.q_proj.bias"@,
                )]
                &&& layer.k_proj_weight == m[tensor_names::layer_tensor_name(
                    i as nat,
                    "self_attn.k_proj.weight"@,
                )]
                &&& layer.k_proj_bias == m[tensor_names::layer_tensor_name(
                    i as nat,
                    "self_attn.k_proj.bias"@,
                )]
                &&& layer.v_proj_weight == m[tensor_names::layer_tensor_name(
                    i as nat,
                    "self_attn.v_proj.weight"@,
                )]
                &&& layer.v_proj_bias == m[tensor_names::layer_tensor_name(
                    i as nat,
                    "self_attn.v_proj.bias"@,
                )]
                &&& layer.o_proj_weight == m[tensor_names::layer_tensor_name(
                    i as nat,
                    "self_attn.o_proj.weight"@,
                )]
                &&& layer.post_attention_layernorm_weight == m[tensor_names::layer_tensor_name(
                    i as nat,
                    "post_attention_layernorm.weight"@,
                )]
                &&& layer.gate_proj_weight == m[tensor_names::layer_tensor_name(
                    i as nat,
                    "mlp.gate_proj.weight"@,
                )]
                &&& layer.up_proj_weight == m[tensor_names::layer_tensor_name(
                    i as nat,
                    "mlp.up_proj.weight"@,
                )]
                &&& layer.down_proj_weight == m[tensor_names::layer_tensor_name(
                    i as nat,
                    "mlp.down_proj.weight"@,
                )]
            }
            &&& model.norm == m["model.norm.weight"@]
            &&& model.lm_head == m["lm_head.weight"@]
        },
{
    assert forall|i: int| 0 <= i < 28 implies ((#[trigger] model.layers@[i]).comes_from(m, i)
        <==> {
            let layer = model.layers@[i];
            &&& layer.input_layernorm_weight == m[tensor_names::layer_tensor_name(
                i as nat,
                "input_layernorm.weight"@,
            )]
            &&& layer.q_proj_weight == m[tensor_names::layer_tensor_name(
                i as nat,
                "self_attn.q_proj.weight"@,
            )]
            &&& layer.q_proj_bias == m[tensor_names::layer_tensor_name(
                i as nat,
                "self_attn.q_proj.bias"@,
            )]
            &&& layer.k_proj_weight == m[tensor_names::layer_tensor_name(
                i as nat,
                "self_attn.k_proj.weight"@,
            )]
            &&& layer.k_proj_bias == m[tensor_names::layer_tensor_name(
                i as nat,
                "self_attn.k_proj.bias"@,
            )]
            &&& layer.v_proj_weight == m[tensor_names::layer_tensor_name(
                i as nat,
                "self_attn.v_proj.weight"@,
            )]
            &&& layer.v_proj_bias == m[tensor_names::layer_tensor_name(
                i as nat,
                "self_attn.v_proj.bias"@,
            )]
            &&& layer.o_proj_weight == m[tensor_names::layer_tensor_name(
                i as nat,
                "self_attn.o_proj.weight"@,
            )]
            &&& layer.post_attention_layernorm_weight == m[tensor_names::layer_tensor_name(
                i as nat,
                "post_attention_layernorm.weight"@,
            )]
            &&& layer.gate_proj_weight == m[tensor_names::layer_tensor_name(
                i as nat,
                "mlp.gate_proj.weight"@,
            )]
            &&& layer.up_proj_weight == m[tensor_names::layer_tensor_name(
                i as nat,
                "mlp.up_proj.weight"@,
            )]
            &&& layer.down_proj_weight == m[tensor_names::layer_tensor_name(
                i as nat,
                "mlp.down_proj.weight"@,
            )]
        }) by {
        layer_fields_by_name(model.layers@[i], m, i as nat);
    }
}

/// The message about a missing tensor gives its name.
pub proof fn missing_tensor_message(e: ModelLoadError, name: Seq<char>)
    ensures
        model::says_missing(e, name) <==> (e matches ModelLoadError::MissingTensor(text) && text@
            == "There is no tensor with the name: "@ + name),
{
}

/// A layer's tensors are all there when `m` has the twelve names.
pub proof fn layer_is_complete_by_name(m: Map<Seq<char>, Tensor>, i: nat)
    ensures
        (forall|j: int|
            0 <= j < 12 ==> m.contains_key(#[trigger] tensor_names::layer_key(i as int, j))) <==> {
            &&& m.contains_key(
                tensor_names::layer_tensor_name(i, "input_layernorm.weight"@),
            )
            &&& m.contains_key(
                tensor_names::layer_tensor_name(i, "self_attn.q_proj.weight"@),
            )
            &&& m.contains_key(
                tensor_names::layer_tensor_name(i, "self_attn.q_proj.bias"@),
            )
            &&& m.contains_key(
                tensor_names::layer_tensor_name(i, "self_attn.k_proj.weight"@),
            )
            &&& m.contains_key(
                tensor_names::layer_tensor_name(i, "self_attn.k_proj.bias"@),
            )
            &&& m.contains_key(
                tensor_names::layer_tensor_name(i, "self_attn.v_proj.weight"@),
            )
            &&& m.contains_key(
                tensor_names::layer_tensor_name(i, "self_attn.v_proj.bias"@),
            )
            &&& m.contains_key(
                tensor_names::layer_tensor_name(i, "self_attn.o_proj.weight"@),
            )
            &&& m.contains_key(
                tensor_names::layer_tensor_name(i, "post_attention_layernorm.weight"@),
            )
            &&& m.contains_key(
                tensor_names::layer_tensor_name(i, "mlp.gate_proj.weight"@),
            )
            &&& m.contains_key(
                tensor_names::layer_tensor_name(i, "mlp.up_proj.weight"@),
            )
            &&& m.contains_key(
                tensor_names::layer_tensor_name(i, "mlp.down_proj.weight"@),
            )
        },
{
    tensor_names::layer_keys_in_order(i);
    if forall|j: int|
        0 <= j < 12 ==> m.contains_key(#[trigger] tensor_names::layer_key(i as int, j)) {
        assert(m.contains_key(tensor_names::layer_key(i as int, 0)));
        assert(m.contains_key(tensor_names::layer_key(i as int, 1)));
        assert(m.contains_key(tensor_names::layer_key(i as int, 2)));
        assert(m.contains_key(tensor_names::layer_key(i as int, 3)));
        assert(m.contains_key(tensor_names::layer_key(i as int, 4)));
        assert(m.contains_key(tensor_names::layer_key(i as int, 5)));
        assert(m.contains_key(tensor_names::layer_key(i as int, 6)));
        assert(m.contains_key(tensor_names::layer_key(i as int, 7)));
        assert(m.contains_key(tensor_names::layer_key(i as int, 8)));
        assert(m.contains_key(tensor_names::layer_key(i as int, 9)));
        assert(m.contains_key(tensor_names::layer_key(i as int, 10)));
        assert(m.contains_key(tensor_names::layer_key(i as int, 11)));
    }
}

/// The first tensor that a layer lacks is found by going through the layer's
/// names in their order.
pub proof fn first_missing_in_layer_by_name(m: Map<Seq<char>, Tensor>, i: nat, j: int)
    ensures
        ({
            let names = seq![
                tensor_names::layer_tensor_name(i, "input_layernorm.weight"@),
                tensor_names::layer_tensor_name(i, "self_attn.q_proj.weight"@),
                tensor_names::layer_tensor_name(i, "self_attn.q_proj.bias"@),
                tensor_names::layer_tensor_name(i, "self_attn.k_proj.weight"@),
                tensor_names::layer_tensor_name(i, "self_attn.k_proj.bias"@),
                tensor_names::layer_tensor_name(i, "self_attn.v_proj.weight"@),
                tensor_names::layer_tensor_name(i, "self_attn.v_proj.bias"@),
                tensor_names::layer_tensor_name(i, "self_attn.o_proj.weight"@),
                tensor_names::layer_tensor_name(i, "post_attention_layernorm.weight"@),
                tensor_names::layer_tensor_name(i, "mlp.gate_proj.weight"@),
                tensor_names::layer_tensor_name(i, "mlp.up_proj.weight"@),
                tensor_names::layer_tensor_name(i, "mlp.down_proj.weight"@),
            ];
            model::first_missing_in_layer(m, i as int, j) <==> {
                &&& 0 <= j < 12
                &&& !m.contains_key(names[j])
                &&& forall|l: int| 0 <= l < j ==> m.contains_key(#[trigger] names[l])
            }
        }),
{
    tensor_names::layer_keys_in_order(i);
    let names = seq![
        tensor_names::layer_tensor_name(i, "input_layernorm.weight"@),
        tensor_names::layer_tensor_name(i, "self_attn.q_proj.weight"@),
        tensor_names::layer_tensor_name(i, "self_attn.q_proj.bias"@),
        tensor_names::layer_tensor_name(i, "self_attn.k_proj.weight"@),
        tensor_names::layer_tensor_name(i, "self_attn.k_proj.bias"@),
        tensor_names::layer_tensor_name(i, "self_attn.v_proj.weight"@),
        tensor_names::layer_tensor_name(i, "self_attn.v_proj.bias"@),
        tensor_names::layer_tensor_name(i, "self_attn.o_proj.weight"@),
        tensor_names::layer_tensor_name(i, "post_attention_layernorm.weight"@),
        tensor_names::layer_tensor_name(i, "mlp.gate_proj.weight"@),
        tensor_names::layer_tensor_name(i, "mlp.up_proj.weight"@),
        tensor_names::layer_tensor_name(i, "mlp.down_proj.weight"@),
    ];
    assert forall|l: int| 0 <= l < 12 implies #[trigger] names[l] == tensor_names::layer_key(
        i as int,
        l,
    ) by {}
    if model::first_missing_in_layer(m, i as int, j) {
        assert forall|l: int| 0 <= l < j implies m.contains_key(#[trigger] names[l]) by {
            assert(m.contains_key(tensor_names::layer_key(i as int, l)));
        }
    }
    if 0 <= j < 12 && (forall|l: int| 0 <= l < j ==> m.contains_key(#[trigger] names[l])) {
        assert forall|l: int| 0 <= l < j implies m.contains_key(
            #[trigger] tensor_names::layer_key(i as int, l),
        ) by {
            assert(m.contains_key(names[l]));
        }
    }
}

/// Taking the first `n` tensors of a layer takes out what goes by the first `n`
/// names of the layer, and nothing else.
pub proof fn what_is_left_of_a_layer_by_name(m: Map<Seq<char>, Tensor>, i: nat, n: int)
    requires
        0 <= n <= 12,
    ensures
        ({
            let names = seq![
                tensor_names::layer_tensor_name(i, "input_layernorm.weight"@),
                tensor_names::layer_tensor_name(i, "self_attn.q_proj.weight"@),
                tensor_names::layer_tensor_name(i, "self_attn.q_proj.bias"@),
                tensor_names::layer_tensor_name(i, "self_attn.k_proj.weight"@),
                tensor_names::layer_tensor_name(i, "self_attn.k_proj.bias"@),
                tensor_names::layer_tensor_name(i, "self_attn.v_proj.weight"@),
                tensor_names::layer_tensor_name(i, "self_attn.v_proj.bias"@),
                tensor_names::layer_tensor_name(i, "self_attn.o_proj.weight"@),
                tensor_names::layer_tensor_name(i, "post_attention_layernorm.weight"@),
                tensor_names::layer_tensor_name(i, "mlp.gate_proj.weight"@),
                tensor_names::layer_tensor_name(i, "mlp.up_proj.weight"@),
                tensor_names::layer_tensor_name(i, "mlp.down_proj.weight"@),
            ];
            let left = model::without_layer_tensors(m, i as int, n);
            &&& forall|name: Seq<char>| #[trigger]
                left.contains_key(name) <==> m.contains_key(name) && !names.take(n).contains(name)
            &&& forall|name: Seq<char>| #[trigger]
                left.contains_key(name) ==> left[name] == m[name]
        }),
{
    tensor_names::layer_keys_in_order(i);
    let names = seq![
        tensor_names::layer_tensor_name(i, "input_layernorm.weight"@),
        tensor_names::layer_tensor_name(i, "self_attn.q_proj.weight"@),
        tensor_names::layer_tensor_name(i, "self_attn.q_proj.bias"@),
        tensor_names::layer_tensor_name(i, "self_attn.k_proj.weight"@),
        tensor_names::layer_tensor_name(i, "self_attn.k_proj.bias"@),
        tensor_names::layer_tensor_name(i, "self_attn.v_proj.weight"@),
        tensor_names::layer_tensor_name(i, "self_attn.v_proj.bias"@),
        tensor_names::layer_tensor_name(i, "self_attn.o_proj.weight"@),
        tensor_names::layer_tensor_name(i, "post_attention_layernorm.weight"@),
        tensor_names::layer_tensor_name(i, "mlp.gate_proj.weight"@),
        tensor_names::layer_tensor_name(i, "mlp.up_proj.weight"@),
        tensor_names::layer_tensor_name(i, "mlp.down_proj.weight"@),
    ];
    let left = model::without_layer_tensors(m, i as int, n);
    assert forall|l: int| 0 <= l < 12 implies #[trigger] names[l] == tensor_names::layer_key(
        i as int,
        l,
    ) by {}
    assert forall|name: Seq<char>| #[trigger]
        left.contains_key(name) <==> m.contains_key(name) && !names.take(n).contains(name) by {
        if names.take(n).contains(name) {
            let l = choose|l: int| 0 <= l < n && #[trigger] names.take(n)[l] == name;
            assert(names[l] == name);
            assert(tensor_names::layer_key(i as int, l) == name);
        }
        if m.contains_key(name) && !left.contains_key(name) {
            let l = choose|l: int|
                0 <= l < n && #[trigger] tensor_names::layer_key(i as int, l) == name;
            assert(names[l] == name);
            assert(names.take(n)[l] == name);
        }
    }
}

/// The model's tensors are all there when `m` has the embedding, the final norm,
/// the output projection and the twelve names of each of the 28 layers.
pub proof fn model_is_complete_by_name(m: Map<Seq<char>, Tensor>)
    ensures
        (forall|k: int|
            0 <= k < tensor_names::model_key_count() ==> m.contains_key(
                #[trigger] tensor_names::model_key(k),
            )) <==> {
            &&& m.contains_key("model.embed_tokens.weight"@)
            &&& forall|i: nat| #![trigger tensor_names::decimal(i)] i < 28 ==> {
                &&& m.contains_key(
                    tensor_names::layer_tensor_name(i, "input_layernorm.weight"@),
                )
                &&& m.contains_key(
                    tensor_names::layer_tensor_name(i, "self_attn.q_proj.weight"@),
                )
                &&& m.contains_key(
                    tensor_names::layer_tensor_name(i, "self_attn.q_proj.bias"@),
                )
                &&& m.contains_key(
                    tensor_names::layer_tensor_name(i, "self_attn.k_proj.weight"@),
                )
                &&& m.contains_key(
                    tensor_names::layer_tensor_name(i, "self_attn.k_proj.bias"@),
                )
                &&& m.contains_key(
                    tensor_names::layer_tensor_name(i, "self_attn.v_proj.weight"@),
                )
                &&& m.contains_key(
                    tensor_names::layer_tensor_name(i, "self_attn.v_proj.bias"@),
                )
                &&& m.contains_key(
                    tensor_names::layer_tensor_name(i, "self_attn.o_proj.weight"@),
                )
                &&& m.contains_key(
                    tensor_names::layer_tensor_name(i, "post_attention_layernorm.weight"@),
                )
                &&& m.contains_key(
                    tensor_names::layer_tensor_name(i, "mlp.gate_proj.weight"@),
                )
                &&& m.contains_key(
                    tensor_names::layer_tensor_name(i, "mlp.up_proj.weight"@),
                )
                &&& m.contains_key(
                    tensor_names::layer_tensor_name(i, "mlp.down_proj.weight"@),
                )
            }
            &&& m.contains_key("model.norm.weight"@)
            &&& m.contains_key("lm_head.weight"@)
        },
{
    tensor_names::model_keys_in_order(0, 0);
    if forall|k: int|
        0 <= k < tensor_names::model_key_count() ==> m.contains_key(
            #[trigger] tensor_names::model_key(k),
        ) {
        assert(m.contains_key(tensor_names::model_key(0)));
        assert(m.contains_key(tensor_names::model_key(337)));
        assert(m.contains_key(tensor_names::model_key(338)));
        assert forall|i: nat| #![trigger tensor_names::decimal(i)] i < 28 implies {
            &&& m.contains_key(
                tensor_names::layer_tensor_name(i, "input_layernorm.weight"@),
            )
            &&& m.contains_key(
                tensor_names::layer_tensor_name(i, "self_attn.q_proj.weight"@),
            )
            &&& m.contains_key(
                tensor_names::layer_tensor_name(i, "self_attn.q_proj.bias"@),
            )
            &&& m.contains_key(
                tensor_names::layer_tensor_name(i, "self_attn.k_proj.weight"@),
            )
            &&& m.contains_key(
                tensor_names::layer_tensor_name(i, "self_attn.k_proj.bias"@),
            )
            &&& m.contains_key(
                tensor_names::layer_tensor_name(i, "self_attn.v_proj.weight"@),
            )
            &&& m.contains_key(
                tensor_names::layer_tensor_name(i, "self_attn.v_proj.bias"@),
            )
            &&& m.contains_key(
                tensor_names::layer_tensor_name(i, "self_attn.o_proj.weight"@),
            )
            &&& m.contains_key(
                tensor_names::layer_tensor_name(i, "post_attention_layernorm.weight"@),
            )
            &&& m.contains_key(
                tensor_names::layer_tensor_name(i, "mlp.gate_proj.weight"@),
            )
            &&& m.contains_key(
                tensor_names::layer_tensor_name(i, "mlp.up_proj.weight"@),
            )
            &&& m.contains_key(
                tensor_names::layer_tensor_name(i, "mlp.down_proj.weight"@),
            )
        } by {
            assert forall|j: int| 0 <= j < 12 implies m.contains_key(
                #[trigger] tensor_names::layer_key(i as int, j),
            ) by {
                tensor_names::model_keys_in_order(i as int, j);
                assert(m.contains_key(tensor_names::model_key(1 + 12 * i + j)));
            }
            layer_is_complete_by_name(m, i);
        }
    }
    if m.contains_key("model.embed_tokens.weight"@) && m.contains_key("model.norm.weight"@)
        && m.contains_key("lm_head.weight"@) && (forall|i: nat|
        #![trigger tensor_names::decimal(i)]
        i < 28 ==> {
            &&& m.contains_key(
                tensor_names::layer_tensor_name(i, "input_layernorm.weight"@),
            )
            &&& m.contains_key(
                tensor_names::layer_tensor_name(i, "self_attn.q_proj.weight"@),
            )
            &&& m.contains_key(
                tensor_names::layer_tensor_name(i, "self_attn.q_proj.bias"@),
            )
            &&& m.contains_key(
                tensor_names::layer_tensor_name(i, "self_attn.k_proj.weight"@),
            )
            &&& m.contains_key(
                tensor_names::layer_tensor_name(i, "self_attn.k_proj.bias"@),
            )
            &&& m.contains_key(
                tensor_names::layer_tensor_name(i, "self_attn.v_proj.weight"@),
            )
            &&& m.contains_key(
                tensor_names::layer_tensor_name(i, "self_attn.v_proj.bias"@),
            )
            &&& m.contains_key(
                tensor_names::layer_tensor_name(i, "self_attn.o_proj.weight"@),
            )
            &&& m.contains_key(
                tensor_names::layer_tensor_name(i, "post_attention_layernorm.weight"@),
            )
            &&& m.contains_key(
                tensor_names::layer_tensor_name(i, "mlp.gate_proj.weight"@),
            )
            &&& m.contains_key(
                tensor_names::layer_tensor_name(i, "mlp.up_proj.weight"@),
            )
            &&& m.contains_key(
                tensor_names::layer_tensor_name(i, "mlp.down_proj.weight"@),
            )
        }) {
        assert forall|k: int| 0 <= k < tensor_names::model_key_count() implies m.contains_key(
            #[trigger] tensor_names::model_key(k),
        ) by {
            if 1 <= k <= 336 {
                let i = (k - 1) / 12;
                let j = (k - 1) % 12;
                tensor_names::model_keys_in_order(i, j);
                assert(tensor_names::decimal(i as nat).len() >= 0);
                layer_is_complete_by_name(m, i as nat);
                assert(m.contains_key(tensor_names::layer_key(i, j)));
            }
        }
    }
}

/// The first tensor that the model graph lacks is found by going through the
/// model's names in their order.
pub proof fn first_missing_by_key(m: Map<Seq<char>, Tensor>, k: int)
    ensures
        model::first_missing(m, k) <==> {
            &&& 0 <= k < 339
            &&& !m.contains_key(tensor_names::model_key(k))
            &&& forall|l: int| 0 <= l < k ==> m.contains_key(#[trigger] tensor_names::model_key(l))
        },
{
}

} // verus!
