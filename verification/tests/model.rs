use safetensors::tensor::TensorView;
use safetensors::{Dtype, SafeTensorError, SafeTensors};
use scout::model::{build_qwen2_model, load_layer, take, ModelLoadError};
use scout::safetensors_file::{
    collect_tensors, declared_len_fits, find_header, finish_parse, load_safetensors,
    parse_safetensors,
};
use scout::tensor::{Tensor, TensorMap};
use scout::tensor_names::{make_layer_tensor_name, NUM_LAYERS};

#[test]
fn missing_file_returns_io_error() {
    let read = Err(std::io::Error::from(std::io::ErrorKind::NotFound));
    let result = load_safetensors(read);
    assert!(matches!(result, Err(ModelLoadError::Io(_))));
}

#[test]
fn loads_tensors_from_a_real_safetensors_file() {
    let data: Vec<u8> = vec![0, 0, 128, 63, 0, 0, 0, 64]; // f32 1.0, 2.0 (little-endian)
    let view = TensorView::new(Dtype::F32, vec![2], &data).unwrap();
    let file = safetensors::serialize(vec![("weight".to_string(), view)], None).unwrap();

    let loaded = load_safetensors(Ok(file)).unwrap();

    assert_eq!(loaded.len(), 1);
    let tensor = loaded.get("weight").unwrap();
    assert_eq!(tensor.shape, vec![2]);
    assert_eq!(tensor.dtype, Dtype::F32);
    assert_eq!(tensor.data, data);
}

#[test]
fn every_tensor_keeps_its_own_contents() {
    let a: Vec<u8> = vec![1, 2, 3, 4, 5, 6];
    let b: Vec<u8> = vec![7, 8, 9, 10];
    let views = vec![
        ("a".to_string(), TensorView::new(Dtype::U8, vec![2, 3], &a).unwrap()),
        ("b".to_string(), TensorView::new(Dtype::BF16, vec![2], &b).unwrap()),
    ];
    let file = safetensors::serialize(views, None).unwrap();
    let loaded = parse_safetensors(&file).unwrap();
    assert_eq!(loaded.len(), 2);
    let ta = loaded.get("a").unwrap();
    let tb = loaded.get("b").unwrap();
    assert_eq!((ta.shape.clone(), ta.dtype, ta.data.clone()), (vec![2, 3], Dtype::U8, a));
    assert_eq!((tb.shape.clone(), tb.dtype, tb.data.clone()), (vec![2], Dtype::BF16, b));
    assert!(loaded.get("c").is_none());
}

#[test]
fn bytes_that_are_no_file_give_a_parse_error() {
    assert!(matches!(load_safetensors(Ok(vec![])), Err(ModelLoadError::Parse(_))));
    assert!(matches!(load_safetensors(Ok(vec![255; 8])), Err(ModelLoadError::Parse(_))));
    assert!(matches!(load_safetensors(Ok(vec![9; 40])), Err(ModelLoadError::Parse(_))));

    // A header that is longer than the file.
    let mut short = 100u64.to_le_bytes().to_vec();
    short.extend(b"{}");
    assert!(matches!(load_safetensors(Ok(short)), Err(ModelLoadError::Parse(_))));

    // A valid header, and more data than it declares.
    let mut long = 2u64.to_le_bytes().to_vec();
    long.extend(b"{}");
    assert_eq!(load_safetensors(Ok(long.clone())).unwrap().len(), 0);
    long.push(0);
    assert!(matches!(load_safetensors(Ok(long)), Err(ModelLoadError::Parse(_))));
}

#[test]
fn declared_length_beyond_the_address_space_is_refused() {
    let size: u64 = (1 << 61) - 1;
    let mut header = "{".to_string();
    for i in 0..8u64 {
        if i > 0 {
            header.push(',');
        }
        header.push_str(&format!(
            "\"t{i}\":{{\"dtype\":\"U8\",\"shape\":[{size}],\"data_offsets\":[{},{}]}}",
            i * size,
            (i + 1) * size
        ));
    }
    header.push('}');
    let mut file = (header.len() as u64).to_le_bytes().to_vec();
    file.extend(header.as_bytes());
    assert!(matches!(load_safetensors(Ok(file)), Err(ModelLoadError::FileLengthOverflow)));
}

#[test]
fn later_entry_of_the_same_name_wins() {
    let entries = vec![
        ("a".to_string(), vec![1], Dtype::U8, vec![1]),
        ("b".to_string(), vec![1], Dtype::U8, vec![2]),
        ("a".to_string(), vec![1], Dtype::I8, vec![3]),
    ];
    let map = collect_tensors(entries);
    assert_eq!(map.len(), 2);
    assert_eq!(map.get("a").unwrap().data, vec![3]);
    assert_eq!(map.get("a").unwrap().dtype, Dtype::I8);
    assert_eq!(map.get("b").unwrap().data, vec![2]);
}

fn all_expected_qwen2_keys() -> Vec<String> {
    let mut keys = vec!["model.embed_tokens.weight".to_string()];
    for layer_idx in 0..NUM_LAYERS {
        let prefix = format!("model.layers.{layer_idx}");
        keys.push(format!("{prefix}.input_layernorm.weight"));
        keys.push(format!("{prefix}.self_attn.q_proj.weight"));
        keys.push(format!("{prefix}.self_attn.q_proj.bias"));
        keys.push(format!("{prefix}.self_attn.k_proj.weight"));
        keys.push(format!("{prefix}.self_attn.k_proj.bias"));
        keys.push(format!("{prefix}.self_attn.v_proj.weight"));
        keys.push(format!("{prefix}.self_attn.v_proj.bias"));
        keys.push(format!("{prefix}.self_attn.o_proj.weight"));
        keys.push(format!("{prefix}.post_attention_layernorm.weight"));
        keys.push(format!("{prefix}.mlp.gate_proj.weight"));
        keys.push(format!("{prefix}.mlp.up_proj.weight"));
        keys.push(format!("{prefix}.mlp.down_proj.weight"));
    }
    keys.push("model.norm.weight".to_string());
    keys.push("lm_head.weight".to_string());
    keys
}

fn tiny_tensor() -> Tensor {
    Tensor { shape: vec![1], dtype: Dtype::F32, data: vec![0, 0, 0, 0] }
}

/// A tensor that can be told from the others by its shape.
fn numbered_tensor(n: usize) -> Tensor {
    Tensor { shape: vec![n], dtype: Dtype::U8, data: vec![] }
}

fn message(error: ModelLoadError) -> String {
    match error {
        ModelLoadError::MissingTensor(text) => text,
        other => panic!("not a missing tensor: {other:?}"),
    }
}

#[test]
fn build_qwen2_model_fails_when_tensors_missing() {
    let result = build_qwen2_model(TensorMap::new());
    assert!(matches!(result, Err(ModelLoadError::MissingTensor(_))));
}

#[test]
fn build_qwen2_model_fails_when_one_layer_tensor_is_missing() {
    let mut tensors = TensorMap::new();
    for key in all_expected_qwen2_keys() {
        if key == "model.layers.5.self_attn.k_proj.bias" {
            continue;
        }
        tensors.insert(key, tiny_tensor());
    }
    let result = build_qwen2_model(tensors);
    assert!(matches!(result, Err(ModelLoadError::MissingTensor(_))));
}

#[test]
fn build_qwen2_model_succeeds_with_all_expected_tensors() {
    let mut tensors = TensorMap::new();
    for key in all_expected_qwen2_keys() {
        tensors.insert(key, tiny_tensor());
    }

    let model = match build_qwen2_model(tensors) {
        Ok(model) => model,
        Err(error) => panic!("{error:?}"),
    };
    assert_eq!(model.layers.len(), NUM_LAYERS);
}

#[test]
fn every_tensor_ends_up_in_its_place() {
    let mut tensors = TensorMap::new();
    for (n, key) in all_expected_qwen2_keys().into_iter().enumerate() {
        tensors.insert(key, numbered_tensor(n));
    }
    tensors.insert("unused".to_string(), numbered_tensor(9999));
    let model = match build_qwen2_model(tensors) {
        Ok(model) => model,
        Err(error) => panic!("{error:?}"),
    };
    assert_eq!(model.embed_tokens.shape, vec![0]);
    for (i, layer) in model.layers.iter().enumerate() {
        let first = 1 + 12 * i;
        assert_eq!(layer.input_layernorm_weight.shape, vec![first]);
        assert_eq!(layer.q_proj_weight.shape, vec![first + 1]);
        assert_eq!(layer.q_proj_bias.shape, vec![first + 2]);
        assert_eq!(layer.k_proj_weight.shape, vec![first + 3]);
        assert_eq!(layer.k_proj_bias.shape, vec![first + 4]);
        assert_eq!(layer.v_proj_weight.shape, vec![first + 5]);
        assert_eq!(layer.v_proj_bias.shape, vec![first + 6]);
        assert_eq!(layer.o_proj_weight.shape, vec![first + 7]);
        assert_eq!(layer.post_attention_layernorm_weight.shape, vec![first + 8]);
        assert_eq!(layer.gate_proj_weight.shape, vec![first + 9]);
        assert_eq!(layer.up_proj_weight.shape, vec![first + 10]);
        assert_eq!(layer.down_proj_weight.shape, vec![first + 11]);
    }
    assert_eq!(model.norm.shape, vec![337]);
    assert_eq!(model.lm_head.shape, vec![338]);
}

#[test]
fn the_first_missing_tensor_is_the_one_reported() {
    let keys = all_expected_qwen2_keys();
    for missing in [0, 1, 17, 200, 336, 337, 338] {
        let mut tensors = TensorMap::new();
        for (n, key) in keys.iter().enumerate() {
            if n != missing && n != 338 {
                tensors.insert(key.clone(), tiny_tensor());
            }
        }
        match build_qwen2_model(tensors) {
            Ok(_) => panic!("built without {}", keys[missing]),
            Err(error) => assert_eq!(
                message(error),
                format!("There is no tensor with the name: {}", keys[missing])
            ),
        }
    }
}

#[test]
fn take_moves_a_tensor_out_once() {
    let mut tensors = TensorMap::new();
    tensors.insert("x".to_string(), numbered_tensor(3));
    assert_eq!(take(&mut tensors, "x").unwrap().shape, vec![3]);
    assert_eq!(tensors.len(), 0);
    match take(&mut tensors, "x") {
        Ok(_) => panic!("taken twice"),
        Err(error) => assert_eq!(message(error), "There is no tensor with the name: x"),
    }
}

#[test]
fn load_layer_takes_the_tensors_of_one_layer() {
    let mut tensors = TensorMap::new();
    for (n, key) in all_expected_qwen2_keys().into_iter().enumerate() {
        tensors.insert(key, numbered_tensor(n));
    }
    let layer = match load_layer(&mut tensors, 12) {
        Ok(layer) => layer,
        Err(error) => panic!("{error:?}"),
    };
    assert_eq!(layer.down_proj_weight.shape, vec![1 + 12 * 12 + 11]);
    assert_eq!(tensors.len(), 339 - 12);
    match load_layer(&mut tensors, 12) {
        Ok(_) => panic!("loaded twice"),
        Err(error) => assert_eq!(
            message(error),
            "There is no tensor with the name: model.layers.12.input_layernorm.weight"
        ),
    }
}

#[test]
fn layer_tensor_names_are_written_in_decimal() {
    assert_eq!(make_layer_tensor_name(0, "a"), "model.layers.0.a");
    assert_eq!(make_layer_tensor_name(27, "mlp.x"), "model.layers.27.mlp.x");
    assert_eq!(make_layer_tensor_name(1234567890, ""), "model.layers.1234567890.");
}

#[test]
fn expected_names_differ_from_one_another() {
    let mut keys = all_expected_qwen2_keys();
    keys.sort();
    keys.dedup();
    assert_eq!(keys.len(), 339);
}

#[test]
fn map_replaces_and_forgets() {
    let mut map = TensorMap::new();
    map.insert("x".to_string(), numbered_tensor(1));
    map.insert("y".to_string(), numbered_tensor(2));
    map.insert("x".to_string(), numbered_tensor(3));
    assert_eq!(map.len(), 2);
    assert_eq!(map.get("x").unwrap().shape, vec![3]);
    assert_eq!(map.remove("x").unwrap().shape, vec![3]);
    assert!(map.remove("x").is_none());
    assert!(map.get("x").is_none());
    assert_eq!(map.get("y").unwrap().shape, vec![2]);
    map.insert("x".to_string(), numbered_tensor(4));
    assert_eq!(map.get("x").unwrap().shape, vec![4]);
}

#[test]
fn header_is_found_behind_its_length() {
    let mut file = 3u64.to_le_bytes().to_vec();
    file.extend(b"{ }data");
    assert_eq!(find_header(&file), Some(&b"{ }"[..]));
    assert_eq!(find_header(&file[..10]), None);
    assert_eq!(find_header(&file[..7]), None);
    assert_eq!(find_header(&100_000_001u64.to_le_bytes()), None);
}

#[test]
fn declared_length_fits_up_to_the_limit() {
    assert!(declared_len_fits(None, 5));
    assert!(declared_len_fits(Some(usize::MAX - 13), 5));
    assert!(!declared_len_fits(Some(usize::MAX - 12), 5));
}

#[test]
fn parse_error_is_the_one_that_the_parser_gave() {
    let header_too_small = load_safetensors(Ok(vec![]));
    assert!(matches!(
        header_too_small,
        Err(ModelLoadError::Parse(SafeTensorError::HeaderTooSmall))
    ));
    let header_too_large = load_safetensors(Ok(vec![255; 8]));
    assert!(matches!(
        header_too_large,
        Err(ModelLoadError::Parse(SafeTensorError::HeaderTooLarge))
    ));
    let no_header = load_safetensors(Ok(100u64.to_le_bytes().to_vec()));
    assert!(matches!(no_header, Err(ModelLoadError::Parse(SafeTensorError::InvalidHeaderLength))));
    let mut long = 2u64.to_le_bytes().to_vec();
    long.extend(b"{}x");
    assert!(matches!(
        parse_safetensors(&long),
        Err(ModelLoadError::Parse(SafeTensorError::MetadataIncompleteBuffer))
    ));
}

#[test]
fn finish_parse_keeps_the_tensors_or_the_error() {
    let refused = finish_parse(Err(SafeTensorError::TensorInvalidInfo));
    assert!(matches!(
        refused,
        Err(ModelLoadError::Parse(SafeTensorError::TensorInvalidInfo))
    ));

    let data: Vec<u8> = vec![1, 2, 3];
    let view = TensorView::new(Dtype::I8, vec![3, 1], &data).unwrap();
    let file = safetensors::serialize(vec![("t".to_string(), view)], None).unwrap();
    let tensors = finish_parse(SafeTensors::deserialize(&file)).unwrap();
    assert_eq!(tensors.len(), 1);
    let t = tensors.get("t").unwrap();
    assert_eq!((t.shape.clone(), t.dtype, t.data.clone()), (vec![3, 1], Dtype::I8, data));
}
