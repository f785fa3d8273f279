//! The names under which a Qwen2 checkpoint stores its tensors.

use vstd::prelude::*;
use vstd::string::StringExecFns;

verus! {

/// Transformer layers of Qwen2.5-Coder-7B-Instruct, the one checkpoint that
/// is loaded.
pub const NUM_LAYERS: usize = 28;

/// Tensors of one transformer layer.
pub const TENSORS_PER_LAYER: usize = 12;

/// The character of a decimal digit.
pub open spec fn digit(d: nat) -> char {
    (48 + d) as char
}

/// The decimal notation of `n`, without leading zeros.
pub open spec fn decimal(n: nat) -> Seq<char>
    decreases n,
{
    if n < 10 {
        seq![digit(n)]
    } else {
        decimal(n / 10).push(digit(n % 10))
    }
}

/// The part of a layer tensor's name that follows the layer number, in the
/// order in which a layer is assembled.
pub open spec fn layer_suffix(j: int) -> Seq<char> {
    if j == 0 {
        "input_layernorm.weight"@
    } else if j == 1 {
        "self_attn.q_proj.weight"@
    } else if j == 2 {
        "self_attn.q_proj.bias"@
    } else if j == 3 {
        "self_attn.k_proj.weight"@
    } else if j == 4 {
        "self_attn.k_proj.bias"@
    } else if j == 5 {
        "self_attn.v_proj.weight"@
    } else if j == 6 {
        "self_attn.v_proj.bias"@
    } else if j == 7 {
        "self_attn.o_proj.weight"@
    } else if j == 8 {
        "post_attention_layernorm.weight"@
    } else if j == 9 {
        "mlp.gate_proj.weight"@
    } else if j == 10 {
        "mlp.up_proj.weight"@
    } else {
        "mlp.down_proj.weight"@
    }
}

/// The name of a tensor of layer `layer_idx`.
pub open spec fn layer_tensor_name(layer_idx: nat, suffix: Seq<char>) -> Seq<char> {
    "model.layers."@ + decimal(layer_idx) + "."@ + suffix
}

/// The name of the `j`-th tensor of layer `layer_idx`.
pub open spec fn layer_key(layer_idx: int, j: int) -> Seq<char> {
    layer_tensor_name(layer_idx as nat, layer_suffix(j))
}

/// How many tensors the model graph takes.
pub open spec fn model_key_count() -> int {
    NUM_LAYERS * TENSORS_PER_LAYER + 3
}

/// The name of the `k`-th tensor that the model graph takes: the embedding,
/// then the layers in order, then the final norm and the output projection.
pub open spec fn model_key(k: int) -> Seq<char> {
    if k == 0 {
        "model.embed_tokens.weight"@
    } else if k <= NUM_LAYERS * TENSORS_PER_LAYER {
        layer_key((k - 1) / TENSORS_PER_LAYER as int, (k - 1) % TENSORS_PER_LAYER as int)
    } else if k == NUM_LAYERS * TENSORS_PER_LAYER + 1 {
        "model.norm.weight"@
    } else {
        "lm_head.weight"@
    }
}

/// The text of one decimal digit.
fn digit_text(d: usize) -> (r: &'static str)
    requires
        d < 10,
    ensures
        r@ == seq![digit(d as nat)],
{
    proof {
        reveal_strlit("0");
        reveal_strlit("1");
        reveal_strlit("2");
        reveal_strlit("3");
        reveal_strlit("4");
        reveal_strlit("5");
        reveal_strlit("6");
        reveal_strlit("7");
        reveal_strlit("8");
        reveal_strlit("9");
    }
    if d == 0 {
        "0"
    } else if d == 1 {
        "1"
    } else if d == 2 {
        "2"
    } else if d == 3 {
        "3"
    } else if d == 4 {
        "4"
    } else if d == 5 {
        "5"
    } else if d == 6 {
        "6"
    } else if d == 7 {
        "7"
    } else if d == 8 {
        "8"
    } else {
        "9"
    }
}

/// Writes `n` in decimal behind `text`.
fn append_decimal(text: &mut String, n: usize)
    ensures
        final(text)@ == old(text)@ + decimal(n as nat),
    decreases n,
{
    if n < 10 {
        text.append(digit_text(n));
    } else {
        append_decimal(text, n / 10);
        text.append(digit_text(n % 10));
        assert(decimal(n as nat) == decimal(n as nat / 10).push(digit(n as nat % 10)));
        assert(text@ =~= old(text)@ + decimal(n as nat));
    }
}

/// The name of a tensor of layer `layer_idx`.
pub fn make_layer_tensor_name(layer_idx: usize, suffix: &str) -> (r: String)
    ensures
        r@ == layer_tensor_name(layer_idx as nat, suffix@),
        r@ == "model.layers."@ + decimal(layer_idx as nat) + "."@ + suffix@,
{
    let mut name = "model.layers.".to_owned();
    append_decimal(&mut name, layer_idx);
    name.append(".");
    name.append(suffix);
    name
}

/// A decimal numeral is not empty and consists of digits.
proof fn lemma_decimal_digits(n: nat)
    ensures
        decimal(n).len() > 0,
        forall|i: int|
            0 <= i < decimal(n).len() ==> 48 <= (#[trigger] decimal(n)[i]) as u32 <= 57,
    decreases n,
{
    if n >= 10 {
        lemma_decimal_digits(n / 10);
    }
}

/// A numeral ends in the character of the number's last digit; what stands
/// before that is the numeral of the tenth part, and nothing below ten.
pub proof fn decimal_ends_in_the_last_digit(n: nat)
    ensures
        decimal(n).len() >= 1,
        decimal(n).last() as u32 == 48 + n % 10,
        n < 10 ==> decimal(n).len() == 1,
        n >= 10 ==> decimal(n).drop_last() == decimal(n / 10),
{
    lemma_decimal_digits(n);
    if n >= 10 {
        assert(decimal(n).drop_last() =~= decimal(n / 10));
    }
}

/// A layer tensor's name is the prefix, the layer number, a dot and the suffix.
pub proof fn layer_tensor_name_is_spelled_out(layer_idx: nat, suffix: Seq<char>)
    ensures
        layer_tensor_name(layer_idx, suffix) == "model.layers."@ + decimal(layer_idx) + "."@
            + suffix,
{
}

/// The twelve tensors of a layer, by name, in the order in which a layer is
/// assembled.
pub proof fn layer_keys_in_order(layer_idx: nat)
    ensures
        TENSORS_PER_LAYER == 12,
        layer_key(layer_idx as int, 0) == layer_tensor_name(
            layer_idx,
            "input_layernorm.weight"@,
        ),
        layer_key(layer_idx as int, 1) == layer_tensor_name(
            layer_idx,
            "self_attn.q_proj.weight"@,
        ),
        layer_key(layer_idx as int, 2) == layer_tensor_name(
            layer_idx,
            "self_attn.q_proj.bias"@,
        ),
        layer_key(layer_idx as int, 3) == layer_tensor_name(
            layer_idx,
            "self_attn.k_proj.weight"@,
        ),
        layer_key(layer_idx as int, 4) == layer_tensor_name(
            layer_idx,
            "self_attn.k_proj.bias"@,
        ),
        layer_key(layer_idx as int, 5) == layer_tensor_name(
            layer_idx,
            "self_attn.v_proj.weight"@,
        ),
        layer_key(layer_idx as int, 6) == layer_tensor_name(
            layer_idx,
            "self_attn.v_proj.bias"@,
        ),
        layer_key(layer_idx as int, 7) == layer_tensor_name(
            layer_idx,
            "self_attn.o_proj.weight"@,
        ),
        layer_key(layer_idx as int, 8) == layer_tensor_name(
            layer_idx,
            "post_attention_layernorm.weight"@,
        ),
        layer_key(layer_idx as int, 9) == layer_tensor_name(
            layer_idx,
            "mlp.gate_proj.weight"@,
        ),
        layer_key(layer_idx as int, 10) == layer_tensor_name(
            layer_idx,
            "mlp.up_proj.weight"@,
        ),
        layer_key(layer_idx as int, 11) == layer_tensor_name(
            layer_idx,
            "mlp.down_proj.weight"@,
        ),
{
}

/// The model graph takes the embedding first, then the twelve tensors of each
/// of the 28 layers, then the final norm, then the output projection.
pub proof fn model_keys_in_order(i: int, j: int)
    ensures
        NUM_LAYERS == 28,
        model_key_count() == 339,
        model_key(0) == "model.embed_tokens.weight"@,
        0 <= i < 28 && 0 <= j < 12 ==> model_key(1 + 12 * i + j) == layer_key(i, j),
        model_key(337) == "model.norm.weight"@,
        model_key(338) == "lm_head.weight"@,
{
}

/// Different numbers have different numerals.
pub proof fn decimal_is_injective(m: nat, n: nat)
    requires
        decimal(m) == decimal(n),
    ensures
        m == n,
    decreases m,
{
    lemma_decimal_digits(m / 10);
    lemma_decimal_digits(n / 10);
    assert(decimal(m).last() == decimal(n).last());
    assert(decimal(m).last() == digit(m % 10));
    assert(decimal(n).last() == digit(n % 10));
    assert(m % 10 == n % 10);
    if m >= 10 && n >= 10 {
        assert(decimal(m).drop_last() =~= decimal(m / 10));
        assert(decimal(n).drop_last() =~= decimal(n / 10));
        decimal_is_injective(m / 10, n / 10);
    } else if m >= 10 {
        assert(decimal(m).len() > 1);
    } else if n >= 10 {
        assert(decimal(n).len() > 1);
    }
}

/// The name of a layer tensor determines the layer and the suffix.
pub proof fn layer_tensor_name_is_injective(i: nat, a: Seq<char>, j: nat, b: Seq<char>)
    requires
        layer_tensor_name(i, a) == layer_tensor_name(j, b),
    ensures
        i == j,
        a == b,
{
    reveal_strlit(".");
    lemma_decimal_digits(i);
    lemma_decimal_digits(j);
    let p = "model.layers."@;
    let x = layer_tensor_name(i, a);
    let y = layer_tensor_name(j, b);
    let li = decimal(i).len() as int;
    let lj = decimal(j).len() as int;
    assert(x[p.len() + li] == '.');
    assert(y[p.len() + lj] == '.');
    if li < lj {
        assert(y[p.len() + li] == decimal(j)[li]);
    } else if lj < li {
        assert(x[p.len() + lj] == decimal(i)[lj]);
    }
    assert(decimal(i) =~= x.subrange(p.len() as int, p.len() + li));
    assert(decimal(j) =~= y.subrange(p.len() as int, p.len() + lj));
    decimal_is_injective(i, j);
    assert(a =~= x.skip(p.len() + li + 1));
    assert(b =~= y.skip(p.len() + lj + 1));
}

/// The suffixes of a layer's tensors differ from one another.
proof fn lemma_suffixes_distinct(i: int, j: int)
    requires
        0 <= i < TENSORS_PER_LAYER,
        0 <= j < TENSORS_PER_LAYER,
        layer_suffix(i) == layer_suffix(j),
    ensures
        i == j,
{
    reveal_strlit("input_layernorm.weight");
    reveal_strlit("self_attn.q_proj.weight");
    reveal_strlit("self_attn.q_proj.bias");
    reveal_strlit("self_attn.k_proj.weight");
    reveal_strlit("self_attn.k_proj.bias");
    reveal_strlit("self_attn.v_proj.weight");
    reveal_strlit("self_attn.v_proj.bias");
    reveal_strlit("self_attn.o_proj.weight");
    reveal_strlit("post_attention_layernorm.weight");
    reveal_strlit("mlp.gate_proj.weight");
    reveal_strlit("mlp.up_proj.weight");
    reveal_strlit("mlp.down_proj.weight");
    assert("input_layernorm.weight"@.len() == 22);
    assert("self_attn.q_proj.weight"@.len() == 23);
    assert("self_attn.q_proj.bias"@.len() == 21);
    assert("self_attn.k_proj.weight"@.len() == 23);
    assert("self_attn.k_proj.bias"@.len() == 21);
    assert("self_attn.v_proj.weight"@.len() == 23);
    assert("self_attn.v_proj.bias"@.len() == 21);
    assert("self_attn.o_proj.weight"@.len() == 23);
    assert("post_attention_layernorm.weight"@.len() == 31);
    assert("mlp.gate_proj.weight"@.len() == 20);
    assert("mlp.up_proj.weight"@.len() == 18);
    assert("mlp.down_proj.weight"@.len() == 20);
    assert("self_attn.q_proj.weight"@[10] == 'q');
    assert("self_attn.q_proj.bias"@[10] == 'q');
    assert("self_attn.k_proj.weight"@[10] == 'k');
    assert("self_attn.k_proj.bias"@[10] == 'k');
    assert("self_attn.v_proj.weight"@[10] == 'v');
    assert("self_attn.v_proj.bias"@[10] == 'v');
    assert("self_attn.o_proj.weight"@[10] == 'o');
    assert("mlp.gate_proj.weight"@[4] == 'g');
    assert("mlp.down_proj.weight"@[4] == 'd');
    assert(layer_suffix(i).len() == layer_suffix(j).len());
    assert(layer_suffix(i)[4] == layer_suffix(j)[4]);
    assert(layer_suffix(i)[10] == layer_suffix(j)[10]);
}

/// No two tensors of the layers go by the same name.
pub proof fn layer_keys_are_distinct(i: int, j: int, k: int, l: int)
    requires
        0 <= i,
        0 <= k,
        0 <= j < TENSORS_PER_LAYER,
        0 <= l < TENSORS_PER_LAYER,
        layer_key(i, j) == layer_key(k, l),
    ensures
        i == k,
        j == l,
{
    layer_tensor_name_is_injective(i as nat, layer_suffix(j), k as nat, layer_suffix(l));
    lemma_suffixes_distinct(j, l);
}

/// No two tensors of the model graph go by the same name.
pub proof fn model_keys_are_distinct(k: int, l: int)
    requires
        0 <= k < model_key_count(),
        0 <= l < model_key_count(),
        model_key(k) == model_key(l),
    ensures
        k == l,
{
    reveal_strlit("model.embed_tokens.weight");
    reveal_strlit("model.layers.");
    reveal_strlit("model.norm.weight");
    reveal_strlit("lm_head.weight");
    let n = (NUM_LAYERS * TENSORS_PER_LAYER) as int;
    let per = TENSORS_PER_LAYER as int;
    assert("model.embed_tokens.weight"@[0] == 'm' && "model.embed_tokens.weight"@[6] == 'e');
    assert("model.layers."@[0] == 'm' && "model.layers."@[6] == 'l');
    assert("model.norm.weight"@[0] == 'm' && "model.norm.weight"@[6] == 'n');
    assert("lm_head.weight"@[0] == 'l');
    assert(model_key(k)[0] == model_key(l)[0]);
    assert(model_key(k)[6] == model_key(l)[6]);
    if 1 <= k <= n && 1 <= l <= n {
        layer_keys_are_distinct((k - 1) / per, (k - 1) % per, (l - 1) / per, (l - 1) % per);
    }
}

} // verus!
