use aether_trainer::bucket::{bucket_index, bucket_layout, BUCKET_COUNT};
use aether_trainer::export::{
    bucket_block, export, export_network, BucketParameters, ExportError, ExportOutput, NamedTensor, TrainedParameters,
};
use aether_trainer::quantize::{encode_le, push_le, quantize, quantize_value, InvalidWidth};
use aether_trainer::schema::{
    expected_file_size, network_topology, ExportHeader, Role, TensorSpec, FORMAT_VERSION, HEADER_SIZE,
    TENSOR_COUNT,
};

fn bits(v: &[f32]) -> Vec<u32> {
    v.iter().map(|x| x.to_bits()).collect()
}

fn zero_params(header: &ExportHeader) -> TrainedParameters {
    let topo = network_topology(header);
    let mut buckets = Vec::new();
    for _ in 0..header.bucket_count {
        let tensors = topo
            .iter()
            .map(|t| NamedTensor { name: t.name.clone(), values: vec![0u32; t.rows * t.cols] })
            .collect();
        buckets.push(BucketParameters { tensors });
    }
    TrainedParameters { buckets }
}

fn set(params: &mut TrainedParameters, bucket: usize, name: &str, values: &[f32]) {
    for t in params.buckets[bucket].tensors.iter_mut() {
        if t.name == name {
            t.values = bits(values);
        }
    }
}

fn small_header() -> ExportHeader {
    ExportHeader::new(2, 4, 2, 1, 1)
}

fn read_signed(bytes: &[u8]) -> i64 {
    let mut u: u64 = 0;
    for (k, b) in bytes.iter().enumerate() {
        u |= (*b as u64) << (8 * k);
    }
    let bits = 8 * bytes.len();
    if u >= 1u64 << (bits - 1) {
        u as i64 - (1i64 << bits)
    } else {
        u as i64
    }
}

fn offset_of(topo: &[TensorSpec], name: &str) -> usize {
    let mut off = 0;
    for t in topo {
        if t.name == name {
            return off;
        }
        off += t.rows * t.cols * t.element_width as usize;
    }
    panic!("no tensor {}", name);
}

fn body_size(topo: &[TensorSpec]) -> usize {
    topo.iter().map(|t| t.rows * t.cols * t.element_width as usize).sum()
}

#[test]
fn clamp_int8_counts_one() {
    assert_eq!(quantize_value(200.0f32.to_bits(), 1, 1), (127, true));
    let q = quantize(&bits(&[200.0]), 1, 1).unwrap();
    assert_eq!(q.bytes, vec![127u8]);
    assert_eq!(q.clamped, 1);
}

#[test]
fn round_int8_without_clamp() {
    assert_eq!(quantize_value(0.4f32.to_bits(), 1, 100), (40, false));
    let q = quantize(&bits(&[0.4]), 1, 100).unwrap();
    assert_eq!(q.bytes, vec![40u8]);
    assert_eq!(q.clamped, 0);
}

#[test]
fn ties_round_away_from_zero() {
    assert_eq!(quantize_value(0.5f32.to_bits(), 2, 1), (1, false));
    assert_eq!(quantize_value((-0.5f32).to_bits(), 2, 1), (-1, false));
    assert_eq!(quantize_value(2.5f32.to_bits(), 2, 1), (3, false));
    assert_eq!(quantize_value((-2.5f32).to_bits(), 2, 1), (-3, false));
    assert_eq!(quantize_value(0.49f32.to_bits(), 2, 1), (0, false));
}

#[test]
fn clamps_at_each_width() {
    assert_eq!(quantize_value((-200.0f32).to_bits(), 1, 1), (-128, true));
    assert_eq!(quantize_value((-128.0f32).to_bits(), 1, 1), (-128, false));
    assert_eq!(quantize_value(127.0f32.to_bits(), 1, 1), (127, false));
    assert_eq!(quantize_value(1000.0f32.to_bits(), 2, 256), (32767, true));
    assert_eq!(quantize_value((-1000.0f32).to_bits(), 2, 256), (-32768, true));
    assert_eq!(quantize_value(1.0e12f32.to_bits(), 4, 16384), (i32::MAX, true));
    assert_eq!(quantize_value((-1.0e30f32).to_bits(), 4, 16384), (i32::MIN, true));
    assert_eq!(quantize_value(3.0f32.to_bits(), 4, 16384), (49152, false));
}

#[test]
fn special_values() {
    assert_eq!(quantize_value(f32::NAN.to_bits(), 1, 64), (0, true));
    assert_eq!(quantize_value(f32::INFINITY.to_bits(), 1, 64), (127, true));
    assert_eq!(quantize_value(f32::NEG_INFINITY.to_bits(), 2, 64), (-32768, true));
    assert_eq!(quantize_value(0.0f32.to_bits(), 4, 64), (0, false));
    assert_eq!(quantize_value((-0.0f32).to_bits(), 4, 64), (0, false));
    assert_eq!(quantize_value(1.0e-40f32.to_bits(), 4, 16384), (0, false));
}

#[test]
fn invalid_width_is_rejected() {
    assert_eq!(quantize(&bits(&[1.0]), 3, 1).err(), Some(InvalidWidth { width: 3 }));
    assert_eq!(quantize(&bits(&[1.0]), 0, 1).err(), Some(InvalidWidth { width: 0 }));
    assert_eq!(quantize(&bits(&[1.0]), 8, 1).err(), Some(InvalidWidth { width: 8 }));
}

#[test]
fn quantize_is_little_endian() {
    let q = quantize(&bits(&[1.0, -1.0]), 2, 256).unwrap();
    assert_eq!(q.bytes, vec![0x00, 0x01, 0x00, 0xFF]);
    let q = quantize(&bits(&[-2.0]), 4, 1).unwrap();
    assert_eq!(q.bytes, vec![0xFE, 0xFF, 0xFF, 0xFF]);
    let mut out = vec![9u8];
    encode_le(-129, 2, &mut out);
    assert_eq!(out, vec![9, 0x7F, 0xFF]);
    let mut out = Vec::new();
    push_le(0x0403_0201, 4, &mut out);
    assert_eq!(out, vec![1, 2, 3, 4]);
}

#[test]
fn round_trip_within_half_step() {
    let values = [0.3f32, -0.7, 1.25, -3.999, 0.0, 100.0 / 3.0, -0.001];
    for (width, scale) in [(1u32, 1u32), (2, 256), (4, 16384), (1, 64)] {
        let q = quantize(&bits(&values), width, scale).unwrap();
        assert_eq!(q.bytes.len(), values.len() * width as usize);
        for (i, v) in values.iter().enumerate() {
            let w = width as usize;
            let read = read_signed(&q.bytes[i * w..i * w + w]);
            let exact = *v as f64 * scale as f64;
            let (expected, clamped) = quantize_value(v.to_bits(), width, scale);
            assert_eq!(read, expected as i64);
            if !clamped {
                assert!((read as f64 / scale as f64 - *v as f64).abs() <= 0.5 / scale as f64 + 1e-12);
                assert!((read as f64 - exact).abs() <= 0.5);
            }
        }
    }
}

#[test]
fn header_layout() {
    let h = ExportHeader::new(8, 768, 256, 32, 8);
    assert_eq!(h.version, FORMAT_VERSION);
    let bytes = h.to_bytes();
    assert_eq!(bytes.len(), HEADER_SIZE);
    assert_eq!(&bytes[0..8], b"AS768NUE");
    assert_eq!(&bytes[8..12], &1u32.to_le_bytes());
    assert_eq!(&bytes[12..16], &8u32.to_le_bytes());
    assert_eq!(&bytes[16..20], &768u32.to_le_bytes());
    assert_eq!(&bytes[20..24], &256u32.to_le_bytes());
    assert_eq!(&bytes[24..28], &32u32.to_le_bytes());
    assert_eq!(&bytes[28..32], &8u32.to_le_bytes());
}

#[test]
fn topology_order_and_shapes() {
    let h = ExportHeader::new(8, 768, 256, 32, 8);
    let topo = network_topology(&h);
    assert_eq!(topo.len(), TENSOR_COUNT);
    let names: Vec<&str> = topo.iter().map(|t| t.name.as_str()).collect();
    assert_eq!(
        names,
        vec![
            "l0_w", "l0_b", "head_a_w", "head_a_b", "head_a_out_w", "head_a_out_b", "head_b_w", "head_b_b",
            "head_b_out_w", "head_b_out_b", "gate_w", "gate_b", "gate_out_w", "gate_out_b"
        ]
    );
    let shapes: Vec<(usize, usize, u32)> = topo.iter().map(|t| (t.rows, t.cols, t.element_width)).collect();
    assert_eq!(
        shapes,
        vec![
            (768, 256, 2), (1, 256, 2), (32, 256, 1), (1, 32, 4), (1, 32, 1), (1, 1, 4), (32, 256, 1),
            (1, 32, 4), (1, 32, 1), (1, 1, 4), (8, 256, 1), (1, 8, 4), (1, 8, 1), (1, 1, 4)
        ]
    );
    assert_eq!(topo[0].role, Role::TrunkWeight);
    assert_eq!(topo[1].scale, 256);
    assert_eq!(topo[2].scale, 64);
    assert_eq!(topo[3].scale, 16384);
    assert_eq!(topo[13].role, Role::GateOutBias);
}

#[test]
fn size_invariant() {
    let h = ExportHeader::new(8, 768, 256, 32, 8);
    let per_bucket = 768 * 256 * 2 + 256 * 2 + 2 * (32 * 256 + 32 * 4 + 32 + 4) + (8 * 256 + 8 * 4 + 8 + 4);
    assert_eq!(expected_file_size(&h), (32 + 8 * per_bucket) as u128);
    let small = small_header();
    let out = export_network(&zero_params(&small), &small).unwrap();
    let topo = network_topology(&small);
    assert_eq!(out.bytes.len(), HEADER_SIZE + 2 * body_size(&topo));
    assert_eq!(out.bytes.len() as u128, expected_file_size(&small));
    let big = ExportHeader::new(3, 40, 16, 4, 2);
    let out = export_network(&zero_params(&big), &big).unwrap();
    assert_eq!(out.bytes.len() as u128, expected_file_size(&big));
    assert_eq!(out.bytes.len(), HEADER_SIZE + 3 * body_size(&network_topology(&big)));
}

#[test]
fn export_is_deterministic() {
    let h = small_header();
    let mut p = zero_params(&h);
    set(&mut p, 0, "head_a_w", &[0.25, -0.5]);
    set(&mut p, 1, "gate_out_b", &[7.5]);
    let a: ExportOutput = export_network(&p, &h).unwrap();
    let b: ExportOutput = export_network(&p, &h).unwrap();
    assert_eq!(a.bytes, b.bytes);
    assert_eq!(a.clamped, b.clamped);
}

#[test]
fn missing_tensor_in_bucket_three() {
    let h = ExportHeader::new(8, 4, 2, 1, 1);
    let mut p = zero_params(&h);
    p.buckets[3].tensors.retain(|t| t.name != "gate_out_b");
    let r = export_network(&p, &h);
    assert_eq!(r.err(), Some(ExportError::MissingTensor { bucket: 3, name: "gate_out_b".to_string() }));
}

#[test]
fn missing_bucket_reports_first_tensor() {
    let h = small_header();
    let mut p = zero_params(&h);
    p.buckets.pop();
    let r = export_network(&p, &h);
    assert_eq!(r.err(), Some(ExportError::MissingTensor { bucket: 1, name: "l0_w".to_string() }));
}

#[test]
fn shape_mismatch_is_reported() {
    let h = small_header();
    let mut p = zero_params(&h);
    set(&mut p, 0, "head_b_b", &[1.0, 2.0, 3.0]);
    let r = export_network(&p, &h);
    assert_eq!(
        r.err(),
        Some(ExportError::ShapeMismatch { bucket: 0, name: "head_b_b".to_string(), rows: 1, cols: 1, actual: 3 })
    );
}

#[test]
fn invalid_width_in_topology() {
    let h = ExportHeader::new(1, 1, 1, 1, 1);
    let mut spec = TensorSpec::new("odd".to_string(), 1, 2, Role::TrunkBias);
    spec.element_width = 3;
    let p = TrainedParameters {
        buckets: vec![BucketParameters {
            tensors: vec![NamedTensor { name: "odd".to_string(), values: bits(&[1.0, 2.0]) }],
        }],
    };
    let r = export(&p, &vec![spec], &h);
    assert_eq!(r.err(), Some(ExportError::InvalidWidth { width: 3 }));
}

#[test]
fn first_failure_wins() {
    let h = small_header();
    let mut p = zero_params(&h);
    set(&mut p, 1, "l0_b", &[1.0]);
    p.buckets[0].tensors.retain(|t| t.name != "gate_w");
    let r = export_network(&p, &h);
    assert_eq!(r.err(), Some(ExportError::MissingTensor { bucket: 0, name: "gate_w".to_string() }));
}

#[test]
fn bucket_offsets_follow_bucket_order() {
    let h = ExportHeader::new(4, 4, 2, 1, 1);
    let mut p = zero_params(&h);
    for k in 0..4 {
        set(&mut p, k, "l0_b", &[k as f32, k as f32]);
    }
    let out = export_network(&p, &h).unwrap();
    let topo = network_topology(&h);
    let size = body_size(&topo);
    let bias = offset_of(&topo, "l0_b");
    for k in 0..4usize {
        let start = HEADER_SIZE + k * size;
        let v = read_signed(&out.bytes[start + bias..start + bias + 2]);
        assert_eq!(v, 256 * k as i64);
        let v = read_signed(&out.bytes[start + bias + 2..start + bias + 4]);
        assert_eq!(v, 256 * k as i64);
    }
    assert_eq!(out.bytes.len(), HEADER_SIZE + 4 * size);
}

#[test]
fn scenario_two_small_buckets() {
    let h = small_header();
    let mut p = zero_params(&h);
    set(&mut p, 1, "l0_b", &[1.0, -1.0]);
    let topo = network_topology(&h);
    let out = export(&p, &topo, &h).unwrap();
    let at = HEADER_SIZE + body_size(&topo) + offset_of(&topo, "l0_b");
    assert_eq!(&out.bytes[at..at + 4], &[0x00, 0x01, 0x00, 0xFF]);
    assert_eq!(out.clamped, 0);
    let nonzero = out.bytes[HEADER_SIZE..].iter().filter(|b| **b != 0).count();
    assert_eq!(nonzero, 2);
}

#[test]
fn export_counts_clamped_values() {
    let h = small_header();
    let mut p = zero_params(&h);
    set(&mut p, 0, "head_a_out_w", &[500.0]);
    set(&mut p, 1, "gate_w", &[-9.0, f32::INFINITY]);
    let out = export_network(&p, &h).unwrap();
    assert_eq!(out.clamped, 3);
}

#[test]
fn king_square_buckets() {
    assert_eq!(BUCKET_COUNT, 8);
    assert_eq!(bucket_index(0), 0);
    assert_eq!(bucket_index(7), 0);
    assert_eq!(bucket_index(8), 1);
    assert_eq!(bucket_index(63), 7);
    let layout = bucket_layout();
    assert_eq!(layout.len(), 64);
    for sq in 0..64u8 {
        assert_eq!(layout[sq as usize], bucket_index(sq) as usize);
        assert_eq!(layout[sq as usize], sq as usize / 8);
    }
}

#[test]
fn bucket_blocks_of_stacked_tensor() {
    let values: Vec<u32> = (0..12).collect();
    assert_eq!(bucket_block(&values, 0, 4), Some(vec![0, 1, 2, 3]));
    assert_eq!(bucket_block(&values, 2, 4), Some(vec![8, 9, 10, 11]));
    assert_eq!(bucket_block(&values, 3, 4), None);
    assert_eq!(bucket_block(&values, 5, 0), Some(vec![]));
    assert_eq!(bucket_block(&values, usize::MAX, 2), None);
}
