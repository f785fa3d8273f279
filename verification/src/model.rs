//! The model graph: the tensors of a checkpoint, organised by their role.

use crate::model_laws;
use crate::tensor::{Tensor, TensorMap};
use crate::tensor_names;
use crate::tensor_names::{make_layer_tensor_name, NUM_LAYERS, TENSORS_PER_LAYER};
use safetensors::SafeTensorError;
use vstd::prelude::*;
use vstd::string::StringExecFns;

verus! {

/// What can go wrong when a model is loaded.
#[derive(Debug)]
pub enum ModelLoadError {
    /// The file could not be read.
    Io(std::io::Error),
    /// The file is not a valid safetensors file.
    Parse(SafeTensorError),
    /// The length of the file that its header declares is not a `usize`.
    FileLengthOverflow,
    /// The file lacks a tensor that the model graph needs. Says which.
    MissingTensor(String),
}

impl From<std::io::Error> for ModelLoadError {
    fn from(err: std::io::Error) -> (r: Self) {
        ModelLoadError::Io(err)
    }
}

impl vstd::std_specs::convert::FromSpecImpl<std::io::Error> for ModelLoadError {
    open spec fn obeys_from_spec() -> bool {
        true
    }

    open spec fn from_spec(err: std::io::Error) -> Self {
        ModelLoadError::Io(err)
    }
}

impl From<SafeTensorError> for ModelLoadError {
    fn from(err: SafeTensorError) -> (r: Self) {
        ModelLoadError::Parse(err)
    }
}

impl vstd::std_specs::convert::FromSpecImpl<SafeTensorError> for ModelLoadError {
    open spec fn obeys_from_spec() -> bool {
        true
    }

    open spec fn from_spec(err: SafeTensorError) -> Self {
        ModelLoadError::Parse(err)
    }
}

/// One transformer layer's weights.
pub struct Qwen2Layer {
    pub input_layernorm_weight: Tensor,
    pub q_proj_weight: Tensor,
    pub q_proj_bias: Tensor,
    pub k_proj_weight: Tensor,
    pub k_proj_bias: Tensor,
    pub v_proj_weight: Tensor,
    pub v_proj_bias: Tensor,
    pub o_proj_weight: Tensor,
    pub post_attention_layernorm_weight: Tensor,
    pub gate_proj_weight: Tensor,
    pub up_proj_weight: Tensor,
    pub down_proj_weight: Tensor,
}

impl Qwen2Layer {
    /// The layer's tensors in the order of their names in `layer_suffix`.
    pub open spec fn tensors(self) -> Seq<Tensor> {
        seq![
            self.input_layernorm_weight,
            self.q_proj_weight,
            self.q_proj_bias,
            self.k_proj_weight,
            self.k_proj_bias,
            self.v_proj_weight,
            self.v_proj_bias,
            self.o_proj_weight,
            self.post_attention_layernorm_weight,
            self.gate_proj_weight,
            self.up_proj_weight,
            self.down_proj_weight,
        ]
    }

    /// Each tensor of the layer is the one that `m` has under its name for
    /// layer `layer_idx`.
    pub open spec fn comes_from(self, m: Map<Seq<char>, Tensor>, layer_idx: int) -> bool {
        forall|j: int|
            0 <= j < TENSORS_PER_LAYER ==> self.tensors()[j] == m[#[trigger] tensor_names::layer_key(
                layer_idx,
                j,
            )]
    }
}

/// The whole model: token embedding, transformer layers, final norm, output
/// projection.
pub struct Qwen2Model {
    pub embed_tokens: Tensor,
    pub layers: Vec<Qwen2Layer>,
    pub norm: Tensor,
    pub lm_head: Tensor,
}

impl Qwen2Model {
    /// Each tensor of the model is the one that `m` has under its name.
    pub open spec fn comes_from(self, m: Map<Seq<char>, Tensor>) -> bool {
        &&& self.embed_tokens == m["model.embed_tokens.weight"@]
        &&& self.layers@.len() == NUM_LAYERS
        &&& forall|i: int|
            0 <= i < NUM_LAYERS ==> (#[trigger] self.layers@[i]).comes_from(m, i)
        &&& self.norm == m["model.norm.weight"@]
        &&& self.lm_head == m["lm_head.weight"@]
    }
}

/// `e` says that the tensor `name` is missing.
pub open spec fn says_missing(e: ModelLoadError, name: Seq<char>) -> bool {
    e matches ModelLoadError::MissingTensor(text) && text@
        == "There is no tensor with the name: "@ + name
}

/// `j` is the first tensor of layer `layer_idx` that `m` lacks.
pub open spec fn first_missing_in_layer(
    m: Map<Seq<char>, Tensor>,
    layer_idx: int,
    j: int,
) -> bool {
    &&& 0 <= j < TENSORS_PER_LAYER
    &&& !m.contains_key(tensor_names::layer_key(layer_idx, j))
    &&& forall|l: int|
        0 <= l < j ==> m.contains_key(#[trigger] tensor_names::layer_key(layer_idx, l))
}

/// `k` is the first tensor of the model graph that `m` lacks.
pub open spec fn first_missing(m: Map<Seq<char>, Tensor>, k: int) -> bool {
    &&& 0 <= k < tensor_names::model_key_count()
    &&& !m.contains_key(tensor_names::model_key(k))
    &&& forall|l: int| 0 <= l < k ==> m.contains_key(#[trigger] tensor_names::model_key(l))
}

/// `m` without the first `n` tensors of layer `layer_idx`.
pub open spec fn without_layer_tensors(
    m: Map<Seq<char>, Tensor>,
    layer_idx: int,
    n: int,
) -> Map<Seq<char>, Tensor> {
    m.remove_keys(
        Set::new(
            |name: Seq<char>|
                exists|j: int|
                    0 <= j < n && #[trigger] tensor_names::layer_key(layer_idx, j) == name,
        ),
    )
}

/// Takes the tensor `name` out of `tensors`.
pub fn take(tensors: &mut TensorMap, name: &str) -> (r: Result<Tensor, ModelLoadError>)
    requires
        old(tensors).wf(),
    ensures
        final(tensors).wf(),
        final(tensors)@ == old(tensors)@.remove(name@),
        match r {
            Ok(t) => old(tensors)@.contains_key(name@) && t == old(tensors)@[name@],
            Err(e) => !old(tensors)@.contains_key(name@) && says_missing(e, name@),
        },
        r is Ok <==> old(tensors)@.contains_key(name@),
        r matches Err(e) ==> (e matches ModelLoadError::MissingTensor(text) && text@
            == "There is no tensor with the name: "@ + name@),
{
    match tensors.remove(name) {
        Some(tensor) => Ok(tensor),
        None => {
            let mut text = "There is no tensor with the name: ".to_owned();
            text.append(name);
            Err(ModelLoadError::MissingTensor(text))
        },
    }
}

/// Taking the next tensor of a layer out of what is left of `m` is as good as
/// taking it out of `m`.
proof fn lemma_layer_step(m: Map<Seq<char>, Tensor>, layer_idx: int, j: int)
    requires
        0 <= layer_idx,
        0 <= j < TENSORS_PER_LAYER,
    ensures
        ({
            let left = without_layer_tensors(m, layer_idx, j);
            let key = tensor_names::layer_key(layer_idx, j);
            &&& left.contains_key(key) <==> m.contains_key(key)
            &&& m.contains_key(key) ==> left[key] == m[key]
            &&& left.remove(key) == without_layer_tensors(m, layer_idx, j + 1)
            &&& !m.contains_key(key) ==> left.remove(key) == left
        }),
{
    let left = without_layer_tensors(m, layer_idx, j);
    let key = tensor_names::layer_key(layer_idx, j);
    assert forall|l: int| 0 <= l < j implies #[trigger] tensor_names::layer_key(layer_idx, l) != key by {
        if tensor_names::layer_key(layer_idx, l) == key {
            tensor_names::layer_keys_are_distinct(layer_idx, l, layer_idx, j);
        }
    }
    let more = without_layer_tensors(m, layer_idx, j + 1);
    assert forall|name: Seq<char>| #[trigger] left.remove(key).contains_key(name)
        == more.contains_key(name) by {
        if left.remove(key).contains_key(name) && !more.contains_key(name) {
            let l = choose|l: int| 0 <= l < j + 1 && #[trigger] tensor_names::layer_key(layer_idx, l) == name;
            assert(l < j);
        }
    }
    assert(left.remove(key) =~= more);
    if !m.contains_key(key) {
        assert(left.remove(key) =~= left);
    }
}

/// Takes the next tensor of a layer, the one after the `j` tensors that were
/// taken out of `m` already.
fn take_from_layer(
    tensors: &mut TensorMap,
    layer_idx: usize,
    suffix: &str,
    Ghost(m): Ghost<Map<Seq<char>, Tensor>>,
    Ghost(j): Ghost<int>,
) -> (r: Result<Tensor, ModelLoadError>)
    requires
        old(tensors).wf(),
        0 <= j < TENSORS_PER_LAYER,
        suffix@ == tensor_names::layer_suffix(j),
        old(tensors)@ == without_layer_tensors(m, layer_idx as int, j),
    ensures
        final(tensors).wf(),
        match r {
            Ok(t) => {
                &&& m.contains_key(tensor_names::layer_key(layer_idx as int, j))
                &&& t == m[tensor_names::layer_key(layer_idx as int, j)]
                &&& final(tensors)@ == without_layer_tensors(m, layer_idx as int, j + 1)
            },
            Err(e) => {
                &&& !m.contains_key(tensor_names::layer_key(layer_idx as int, j))
                &&& says_missing(e, tensor_names::layer_key(layer_idx as int, j))
                &&& final(tensors)@ == without_layer_tensors(m, layer_idx as int, j)
            },
        },
{
    proof {
        lemma_layer_step(m, layer_idx as int, j);
    }
    let name = make_layer_tensor_name(layer_idx, suffix);
    take(tensors, name.as_str())
}

/// Builds layer `layer_idx` out of the tensors that go by its names. On
/// failure the tensors before the missing one have been taken out.
pub fn load_layer(tensors: &mut TensorMap, layer_idx: usize) -> (r: Result<
    Qwen2Layer,
    ModelLoadError,
>)
    requires
        old(tensors).wf(),
    ensures
        final(tensors).wf(),
        match r {
            Ok(layer) => {
                &&& forall|j: int|
                    0 <= j < TENSORS_PER_LAYER ==> old(tensors)@.contains_key(
                        #[trigger] tensor_names::layer_key(layer_idx as int, j),
                    )
                &&& layer.comes_from(old(tensors)@, layer_idx as int)
                &&& final(tensors)@ == without_layer_tensors(
                    old(tensors)@,
                    layer_idx as int,
                    TENSORS_PER_LAYER as int,
                )
            },
            Err(e) => exists|j: int| #[trigger]
                first_missing_in_layer(old(tensors)@, layer_idx as int, j) && says_missing(
                    e,
                    tensor_names::layer_key(layer_idx as int, j),
                ) && final(tensors)@ == without_layer_tensors(
                    old(tensors)@,
                    layer_idx as int,
                    j,
                ),
        },
        r is Ok <==> {
            let m = old(tensors)@;
            let i = layer_idx as nat;
            &&& m.contains_key(
                tensor_names::layer_tensor_name(i, "input_layernorm.weight"@),
            )
            &&& m.contains_key(
                tensor_names::layer_tensor_name(i, "self_attn.q_proj.weight"@),
            )
            &&& m.contains_key(
                tensor_names::layer_tensor_name(i, "self_attn.q_proj.bias"@),
            )
            &&& m.contains_key(
                tensor_names::layer_tensor_name(i, "self_attn.k_proj.weight"@),
            )
            &&& m.contains_key(
                tensor_names::layer_tensor_name(i, "self_attn.k_proj.bias"@),
            )
            &&& m.contains_key(
                tensor_names::layer_tensor_name(i, "self_attn.v_proj.weight"@),
            )
            &&& m.contains_key(
                tensor_names::layer_tensor_name(i, "self_attn.v_proj.bias"@),
            )
            &&& m.contains_key(
                tensor_names::layer_tensor_name(i, "self_attn.o_proj.weight"@),
            )
            &&& m.contains_key(
                tensor_names::layer_tensor_name(i, "post_attention_layernorm.weight"@),
            )
            &&& m.contains_key(
                tensor_names::layer_tensor_name(i, "mlp.gate_proj.weight"@),
            )
            &&& m.contains_key(
                tensor_names::layer_tensor_name(i, "mlp.up_proj.weight"@),
            )
            &&& m.contains_key(
                tensor_names::layer_tensor_name(i, "mlp.down_proj.weight"@),
            )
        },
        r matches Ok(layer) ==> {
            let m = old(tensors)@;
            let i = layer_idx as nat;
            &&& layer.input_layernorm_weight == m[tensor_names::layer_tensor_name(
                i,
                "input_layernorm.weight"@,
            )]
            &&& layer.q_proj_weight == m[tensor_names::layer_tensor_name(
                i,
                "self_attn.q_proj.weight"@,
            )]
            &&& layer.q_proj_bias == m[tensor_names::layer_tensor_name(
                i,
                "self_attn.q_proj.bias"@,
            )]
            &&& layer.k_proj_weight == m[tensor_names::layer_tensor_name(
                i,
                "self_attn.k_proj.weight"@,
            )]
            &&& layer.k_proj_bias == m[tensor_names::layer_tensor_name(
                i,
                "self_attn.k_proj.bias"@,
            )]
            &&& layer.v_proj_weight == m[tensor_names::layer_tensor_name(
                i,
                "self_attn.v_proj.weight"@,
            )]
            &&& layer.v_proj_bias == m[tensor_names::layer_tensor_name(
                i,
                "self_attn.v_proj.bias"@,
            )]
            &&& layer.o_proj_weight == m[tensor_names::layer_tensor_name(
                i,
                "self_attn.o_proj.weight"@,
            )]
            &&& layer.post_attention_layernorm_weight == m[tensor_names::layer_tensor_name(
                i,
                "post_attention_layernorm.weight"@,
            )]
            &&& layer.gate_proj_weight == m[tensor_names::layer_tensor_name(
                i,
                "mlp.gate_proj.weight"@,
            )]
            &&& layer.up_proj_weight == m[tensor_names::layer_tensor_name(
                i,
                "mlp.up_proj.weight"@,
            )]
            &&& layer.down_proj_weight == m[tensor_names::layer_tensor_name(
                i,
                "mlp.down_proj.weight"@,
            )]
        },
        r is Ok ==> forall|name: Seq<char>| #[trigger]
            final(tensors)@.contains_key(name) <==> {
                let i = layer_idx as nat;
                &&& old(tensors)@.contains_key(name)
                &&& name != tensor_names::layer_tensor_name(i, "input_layernorm.weight"@)
                &&& name != tensor_names::layer_tensor_name(i, "self_attn.q_proj.weight"@)
                &&& name != tensor_names::layer_tensor_name(i, "self_attn.q_proj.bias"@)
                &&& name != tensor_names::layer_tensor_name(i, "self_attn.k_proj.weight"@)
                &&& name != tensor_names::layer_tensor_name(i, "self_attn.k_proj.bias"@)
                &&& name != tensor_names::layer_tensor_name(i, "self_attn.v_proj.weight"@)
                &&& name != tensor_names::layer_tensor_name(i, "self_attn.v_proj.bias"@)
                &&& name != tensor_names::layer_tensor_name(i, "self_attn.o_proj.weight"@)
                &&& name != tensor_names::layer_tensor_name(i, "post_attention_layernorm.weight"@)
                &&& name != tensor_names::layer_tensor_name(i, "mlp.gate_proj.weight"@)
                &&& name != tensor_names::layer_tensor_name(i, "mlp.up_proj.weight"@)
                &&& name != tensor_names::layer_tensor_name(i, "mlp.down_proj.weight"@)
            },
        forall|name: Seq<char>| #[trigger]
            final(tensors)@.contains_key(name) ==> old(tensors)@.contains_key(name)
                && final(tensors)@[name] == old(tensors)@[name],
        r matches Err(e) ==> (e matches ModelLoadError::MissingTensor(text) && exists|name: Seq<char>|
            !(#[trigger] old(tensors)@.contains_key(name)) && text@
                == "There is no tensor with the name: "@ + name),
{
    let ghost m = tensors@;
    let ghost i = layer_idx as int;
    assert(without_layer_tensors(m, i, 0) =~= m);
    proof {
        tensor_names::layer_keys_in_order(layer_idx as nat);
        model_laws::layer_is_complete_by_name(m, layer_idx as nat);
    }
    let input_layernorm_weight = match take_from_layer(
        tensors,
        layer_idx,
        "input_layernorm.weight",
        Ghost(m),
        Ghost(0int),
    ) {
        Ok(t) => t,
        Err(e) => {
            assert(first_missing_in_layer(m, i, 0));
            return Err(e);
        },
    };
    let q_proj_weight = match take_from_layer(
        tensors,
        layer_idx,
        "self_attn.q_proj.weight",
        Ghost(m),
        Ghost(1int),
    ) {
        Ok(t) => t,
        Err(e) => {
            assert(first_missing_in_layer(m, i, 1));
            return Err(e);
        },
    };
    let q_proj_bias = match take_from_layer(
        tensors,
        layer_idx,
        "self_attn.q_proj.bias",
        Ghost(m),
        Ghost(2int),
    ) {
        Ok(t) => t,
        Err(e) => {
            assert(first_missing_in_layer(m, i, 2));
            return Err(e);
        },
    };
    let k_proj_weight = match take_from_layer(
        tensors,
        layer_idx,
        "self_attn.k_proj.weight",
        Ghost(m),
        Ghost(3int),
    ) {
        Ok(t) => t,
        Err(e) => {
            assert(first_missing_in_layer(m, i, 3));
            return Err(e);
        },
    };
    let k_proj_bias = match take_from_layer(
        tensors,
        layer_idx,
        "self_attn.k_proj.bias",
        Ghost(m),
        Ghost(4int),
    ) {
        Ok(t) => t,
        Err(e) => {
            assert(first_missing_in_layer(m, i, 4));
            return Err(e);
        },
    };
    let v_proj_weight = match take_from_layer(
        tensors,
        layer_idx,
        "self_attn.v_proj.weight",
        Ghost(m),
        Ghost(5int),
    ) {
        Ok(t) => t,
        Err(e) => {
            assert(first_missing_in_layer(m, i, 5));
            return Err(e);
        },
    };
    let v_proj_bias = match take_from_layer(
        tensors,
        layer_idx,
        "self_attn.v_proj.bias",
        Ghost(m),
        Ghost(6int),
    ) {
        Ok(t) => t,
        Err(e) => {
            assert(first_missing_in_layer(m, i, 6));
            return Err(e);
        },
    };
    let o_proj_weight = match take_from_layer(
        tensors,
        layer_idx,
        "self_attn.o_proj.weight",
        Ghost(m),
        Ghost(7int),
    ) {
        Ok(t) => t,
        Err(e) => {
            assert(first_missing_in_layer(m, i, 7));
            return Err(e);
        },
    };
    let post_attention_layernorm_weight = match take_from_layer(
        tensors,
        layer_idx,
        "post_attention_layernorm.weight",
        Ghost(m),
        Ghost(8int),
    ) {
        Ok(t) => t,
        Err(e) => {
            assert(first_missing_in_layer(m, i, 8));
            return Err(e);
        },
    };
    let gate_proj_weight = match take_from_layer(
        tensors,
        layer_idx,
        "mlp.gate_proj.weight",
        Ghost(m),
        Ghost(9int),
    ) {
        Ok(t) => t,
        Err(e) => {
            assert(first_missing_in_layer(m, i, 9));
            return Err(e);
        },
    };
    let up_proj_weight = match take_from_layer(
        tensors,
        layer_idx,
        "mlp.up_proj.weight",
        Ghost(m),
        Ghost(10int),
    ) {
        Ok(t) => t,
        Err(e) => {
            assert(first_missing_in_layer(m, i, 10));
            return Err(e);
        },
    };
    let down_proj_weight = match take_from_layer(
        tensors,
        layer_idx,
        "mlp.down_proj.weight",
        Ghost(m),
        Ghost(11int),
    ) {
        Ok(t) => t,
        Err(e) => {
            assert(first_missing_in_layer(m, i, 11));
            return Err(e);
        },
    };
    proof {
        model_laws::what_is_left_of_a_layer_by_name(m, layer_idx as nat, TENSORS_PER_LAYER as int);
    }
    Ok(
        Qwen2Layer {
            input_layernorm_weight,
            q_proj_weight,
            q_proj_bias,
            k_proj_weight,
            k_proj_bias,
            v_proj_weight,
            v_proj_bias,
            o_proj_weight,
            post_attention_layernorm_weight,
            gate_proj_weight,
            up_proj_weight,
            down_proj_weight,
        },
    )
}

/// `m` without the first `n` tensors of the model graph.
spec fn without_model_tensors(m: Map<Seq<char>, Tensor>, n: int) -> Map<Seq<char>, Tensor> {
    m.remove_keys(
        Set::new(
            |name: Seq<char>|
                exists|k: int| 0 <= k < n && #[trigger] tensor_names::model_key(k) == name,
        ),
    )
}

/// What is left of `m` still has the later tensors of the model graph.
proof fn lemma_model_key_left(m: Map<Seq<char>, Tensor>, n: int, k: int)
    requires
        0 <= n <= k < tensor_names::model_key_count(),
    ensures
        ({
            let left = without_model_tensors(m, n);
            let key = tensor_names::model_key(k);
            &&& left.contains_key(key) <==> m.contains_key(key)
            &&& m.contains_key(key) ==> left[key] == m[key]
        }),
{
    let key = tensor_names::model_key(k);
    assert forall|l: int| 0 <= l < n implies #[trigger] tensor_names::model_key(l) != key by {
        if tensor_names::model_key(l) == key {
            tensor_names::model_keys_are_distinct(l, k);
        }
    }
}

/// Taking one more tensor leaves what is left without one more.
proof fn lemma_model_step(m: Map<Seq<char>, Tensor>, n: int)
    requires
        0 <= n < tensor_names::model_key_count(),
    ensures
        without_model_tensors(m, n).remove(tensor_names::model_key(n))
            == without_model_tensors(m, n + 1),
{
    let left = without_model_tensors(m, n).remove(tensor_names::model_key(n));
    let more = without_model_tensors(m, n + 1);
    assert forall|name: Seq<char>| #[trigger] left.contains_key(name) == more.contains_key(
        name,
    ) by {
        if left.contains_key(name) && !more.contains_key(name) {
            let k = choose|k: int| 0 <= k < n + 1 && #[trigger] tensor_names::model_key(k) == name;
            assert(k < n);
        }
    }
    assert(left =~= more);
}

/// The tensors of layer `i` follow those of the layers before it in the model
/// graph.
proof fn lemma_layer_in_model(i: int, j: int)
    requires
        0 <= i < NUM_LAYERS,
        0 <= j < TENSORS_PER_LAYER,
    ensures
        1 + i * TENSORS_PER_LAYER + j < tensor_names::model_key_count(),
        tensor_names::model_key(1 + i * TENSORS_PER_LAYER + j) == tensor_names::layer_key(i, j),
{
}

/// Taking a layer out of what is left takes the layer's tensors out of `m`.
proof fn lemma_model_layer(m: Map<Seq<char>, Tensor>, i: int)
    requires
        0 <= i < NUM_LAYERS,
    ensures
        ({
            let left = without_model_tensors(m, 1 + i * TENSORS_PER_LAYER);
            &&& forall|j: int|
                0 <= j < TENSORS_PER_LAYER ==> (left.contains_key(#[trigger] tensor_names::layer_key(i, j))
                    <==> m.contains_key(tensor_names::layer_key(i, j)))
            &&& forall|j: int|
                0 <= j < TENSORS_PER_LAYER && m.contains_key(#[trigger] tensor_names::layer_key(i, j))
                    ==> left[tensor_names::layer_key(i, j)] == m[tensor_names::layer_key(i, j)]
            &&& without_layer_tensors(left, i, TENSORS_PER_LAYER as int)
                == without_model_tensors(m, 1 + (i + 1) * TENSORS_PER_LAYER)
        }),
{
    let n = 1 + i * TENSORS_PER_LAYER;
    let left = without_model_tensors(m, n);
    assert forall|j: int| 0 <= j < TENSORS_PER_LAYER implies (left.contains_key(
        #[trigger] tensor_names::layer_key(i, j),
    ) <==> m.contains_key(tensor_names::layer_key(i, j))) && (m.contains_key(tensor_names::layer_key(i, j))
        ==> left[tensor_names::layer_key(i, j)] == m[tensor_names::layer_key(i, j)]) by {
        lemma_layer_in_model(i, j);
        lemma_model_key_left(m, n, n + j);
    }
    let a = without_layer_tensors(left, i, TENSORS_PER_LAYER as int);
    let b = without_model_tensors(m, n + TENSORS_PER_LAYER);
    assert forall|name: Seq<char>| #[trigger] a.contains_key(name) == b.contains_key(name) by {
        if a.contains_key(name) && !b.contains_key(name) {
            let k = choose|k: int|
                0 <= k < n + TENSORS_PER_LAYER && #[trigger] tensor_names::model_key(k) == name;
            if k >= n {
                lemma_layer_in_model(i, k - n);
            }
        }
        if b.contains_key(name) && !a.contains_key(name) {
            assert(m.contains_key(name));
            if left.contains_key(name) {
                let j = choose|j: int|
                    0 <= j < TENSORS_PER_LAYER && #[trigger] tensor_names::layer_key(i, j) == name;
                lemma_layer_in_model(i, j);
                assert(tensor_names::model_key(n + j) == name);
            } else {
                let k = choose|k: int| 0 <= k < n && #[trigger] tensor_names::model_key(k) == name;
                assert(tensor_names::model_key(k) == name);
            }
        }
    }
    assert(a =~= b);
}

/// Organises a flat, name-indexed tensor map into the model graph. Fails on
/// the first tensor that is missing, in the order embedding, layers, final
/// norm, output projection.
pub fn build_qwen2_model(tensors: TensorMap) -> (r: Result<Qwen2Model, ModelLoadError>)
    requires
        tensors.wf(),
    ensures
        r is Ok <==> forall|k: int|
            0 <= k < tensor_names::model_key_count() ==> tensors@.contains_key(
                #[trigger] tensor_names::model_key(k),
            ),
        match r {
            Ok(model) => model.comes_from(tensors@),
            Err(e) => exists|k: int| #[trigger]
                first_missing(tensors@, k) && says_missing(e, tensor_names::model_key(k)),
        },
        r is Ok <==> {
            let m = tensors@;
            &&& m.contains_key("model.embed_tokens.weight"@)
            &&& forall|i: nat| #![trigger tensor_names::decimal(i)] i < 28 ==> {
                &&& m.contains_key(
                    tensor_names::layer_tensor_name(i, "input_layernorm.weight"@),
                )
                &&& m.contains_key(
                    tensor_names::layer_tensor_name(i, "self_attn.q_proj.weight"@),
                )
                &&& m.contains_key(
                    tensor_names::layer_tensor_name(i, "self_attn.q_proj.bias"@),
                )
                &&& m.contains_key(
                    tensor_names::layer_tensor_name(i, "self_attn.k_proj.weight"@),
                )
                &&& m.contains_key(
                    tensor_names::layer_tensor_name(i, "self_attn.k_proj.bias"@),
                )
                &&& m.contains_key(
                    tensor_names::layer_tensor_name(i, "self_attn.v_proj.weight"@),
                )
                &&& m.contains_key(
                    tensor_names::layer_tensor_name(i, "self_attn.v_proj.bias"@),
                )
                &&& m.contains_key(
                    tensor_names::layer_tensor_name(i, "self_attn.o_proj.weight"@),
                )
                &&& m.contains_key(
                    tensor_names::layer_tensor_name(i, "post_attention_layernorm.weight"@),
                )
                &&& m.contains_key(
                    tensor_names::layer_tensor_name(i, "mlp.gate_proj.weight"@),
                )
                &&& m.contains_key(
                    tensor_names::layer_tensor_name(i, "mlp.up_proj.weight"@),
                )
                &&& m.contains_key(
                    tensor_names::layer_tensor_name(i, "mlp.down_proj.weight"@),
                )
            }
            &&& m.contains_key("model.norm.weight"@)
            &&& m.contains_key("lm_head.weight"@)
        },
        r matches Ok(model) ==> {
            let m = tensors@;
            &&& model.embed_tokens == m["model.embed_tokens.weight"@]
            &&& model.layers@.len() == 28
            &&& forall|i: int| 0 <= i < 28 ==> {
                let layer = #[trigger] model.layers@[i];
                &&& layer.input_layernorm_weight == m[tensor_names::layer_tensor_name(
                    i as nat,
                    "input_layernorm.weight"@,
                )]
                &&& layer.q_proj_weight == m[tensor_names::layer_tensor_name(
                    i as nat,
                    "self_attn.q_proj.weight"@,
                )]
                &&& layer.q_proj_bias == m[tensor_names::layer_tensor_name(
                    i as nat,
                    "self_attn.q_proj.bias"@,
                )]
                &&& layer.k_proj_weight == m[tensor_names::layer_tensor_name(
                    i as nat,
                    "self_attn.k_proj.weight"@,
                )]
                &&& layer.k_proj_bias == m[tensor_names::layer_tensor_name(
                    i as nat,
                    "self_attn.k_proj.bias"@,
                )]
                &&& layer.v_proj_weight == m[tensor_names::layer_tensor_name(
                    i as nat,
                    "self_attn.v_proj.weight"@,
                )]
                &&& layer.v_proj_bias == m[tensor_names::layer_tensor_name(
                    i as nat,
                    "self_attn.v_proj.bias"@,
                )]
                &&& layer.o_proj_weight == m[tensor_names::layer_tensor_name(
                    i as nat,
                    "self_attn.o_proj.weight"@,
                )]
                &&& layer.post_attention_layernorm_weight == m[tensor_names::layer_tensor_name(
                    i as nat,
                    "post_attention_layernorm.weight"@,
                )]
                &&& layer.gate_proj_weight == m[tensor_names::layer_tensor_name(
                    i as nat,
                    "mlp.gate_proj.weight"@,
                )]
                &&& layer.up_proj_weight == m[tensor_names::layer_tensor_name(
                    i as nat,
                    "mlp.up_proj.weight"@,
                )]
                &&& layer.down_proj_weight == m[tensor_names::layer_tensor_name(
                    i as nat,
                    "mlp.down_proj.weight"@,
                )]
            }
            &&& model.norm == m["model.norm.weight"@]
            &&& model.lm_head == m["lm_head.weight"@]
        },
        r matches Err(e) ==> (e matches ModelLoadError::MissingTensor(text) && exists|name: Seq<char>|
            !(#[trigger] tensors@.contains_key(name)) && text@
                == "There is no tensor with the name: "@ + name),
{
    let ghost m = tensors@;
    proof {
        model_laws::model_is_complete_by_name(m);
    }
    let mut rest = tensors;
    assert(tensor_names::model_key(0) == "model.embed_tokens.weight"@);
    assert(without_model_tensors(m, 0) =~= m);
    proof {
        lemma_model_step(m, 0);
    }
    let embed_tokens = match take(&mut rest, "model.embed_tokens.weight") {
        Ok(t) => t,
        Err(e) => {
            assert(first_missing(m, 0));
            return Err(e);
        },
    };
    let mut layers: Vec<Qwen2Layer> = Vec::new();
    let mut layer_idx: usize = 0;
    while layer_idx < NUM_LAYERS
        invariant
            layer_idx <= NUM_LAYERS,
            m == tensors@,
            rest.wf(),
            rest@ == without_model_tensors(m, 1 + layer_idx * TENSORS_PER_LAYER),
            forall|k: int|
                0 <= k < 1 + layer_idx * TENSORS_PER_LAYER ==> m.contains_key(
                    #[trigger] tensor_names::model_key(k),
                ),
            layers@.len() == layer_idx,
            forall|i: int| 0 <= i < layer_idx ==> (#[trigger] layers@[i]).comes_from(m, i),
        decreases NUM_LAYERS - layer_idx,
    {
        let ghost left = rest@;
        let ghost i = layer_idx as int;
        let ghost n = 1 + i * TENSORS_PER_LAYER;
        proof {
            lemma_model_layer(m, i);
        }
        match load_layer(&mut rest, layer_idx) {
            Ok(layer) => {
                proof {
                    assert forall|j: int| 0 <= j < TENSORS_PER_LAYER implies layer.tensors()[j]
                        == m[#[trigger] tensor_names::layer_key(i, j)] by {
                        assert(left.contains_key(tensor_names::layer_key(i, j)));
                    }
                    assert forall|k: int|
                        0 <= k < 1 + (i + 1) * TENSORS_PER_LAYER implies m.contains_key(
                        #[trigger] tensor_names::model_key(k),
                    ) by {
                        if k >= n {
                            lemma_layer_in_model(i, k - n);
                            assert(left.contains_key(tensor_names::layer_key(i, k - n)));
                        }
                    }
                }
                layers.push(layer);
            },
            Err(e) => {
                proof {
                    let j = choose|j: int| #[trigger]
                        first_missing_in_layer(left, i, j) && says_missing(e, tensor_names::layer_key(i, j));
                    lemma_layer_in_model(i, j);
                    assert forall|k: int| 0 <= k < n + j implies m.contains_key(
                        #[trigger] tensor_names::model_key(k),
                    ) by {
                        if k >= n {
                            lemma_layer_in_model(i, k - n);
                            assert(left.contains_key(tensor_names::layer_key(i, k - n)));
                        }
                    }
                    assert(first_missing(m, n + j));
                }
                return Err(e);
            },
        }
        layer_idx += 1;
    }
    let ghost n = (1 + NUM_LAYERS * TENSORS_PER_LAYER) as int;
    assert(tensor_names::model_key(n) == "model.norm.weight"@);
    assert(tensor_names::model_key(n + 1) == "lm_head.weight"@);
    proof {
        lemma_model_key_left(m, n, n);
        lemma_model_key_left(m, n + 1, n + 1);
        lemma_model_step(m, n);
    }
    let norm = match take(&mut rest, "model.norm.weight") {
        Ok(t) => t,
        Err(e) => {
            assert(first_missing(m, n));
            return Err(e);
        },
    };
    let lm_head = match take(&mut rest, "lm_head.weight") {
        Ok(t) => t,
        Err(e) => {
            assert(first_missing(m, n + 1));
            return Err(e);
        },
    };
    let model = Qwen2Model { embed_tokens, layers, norm, lm_head };
    proof {
        model_laws::model_tensors_by_name(model, m);
    }
    Ok(model)
}

} // verus!
