use gguf_analyzer::display::{
    format_bytes, format_shape, format_type, format_value, meta_widths, term_width, Piece,
};
use gguf_analyzer::format::{MetadataArray, MetadataValue, ValueKind};

fn render(pieces: &[Piece]) -> String {
    let mut s = String::new();
    for p in pieces {
        match p {
            Piece::Text(t) => s.push_str(t),
            Piece::F32(b) => s.push_str(&format!("{}", f32::from_bits(*b))),
            Piece::F64(b) => s.push_str(&format!("{}", f64::from_bits(*b))),
        }
    }
    s
}

fn fv(v: &MetadataValue, limit: usize) -> String {
    render(&format_value(v, limit))
}

#[test]
fn bytes_zero() {
    assert_eq!(format_bytes(0), "0 B");
}

#[test]
fn bytes_under_kib() {
    assert_eq!(format_bytes(512), "512 B");
    assert_eq!(format_bytes(1023), "1023 B");
}

#[test]
fn bytes_kib() {
    assert_eq!(format_bytes(1024), "1.00 KiB");
    assert_eq!(format_bytes(2048), "2.00 KiB");
}

#[test]
fn bytes_mib() {
    assert_eq!(format_bytes(1024 * 1024), "1.00 MiB");
}

#[test]
fn bytes_gib() {
    assert_eq!(format_bytes(1024 * 1024 * 1024), "1.00 GiB");
}

#[test]
fn bytes_tib_and_rounding() {
    assert_eq!(format_bytes(1u64 << 40), "1.00 TiB");
    assert_eq!(format_bytes(1536), "1.50 KiB");
    assert_eq!(format_bytes(u64::MAX), "16777216.00 TiB");
}

fn reference_bytes(bytes: u64) -> String {
    const KIB: u64 = 1024;
    const MIB: u64 = KIB * 1024;
    const GIB: u64 = MIB * 1024;
    const TIB: u64 = GIB * 1024;
    if bytes < KIB {
        format!("{} B", bytes)
    } else if bytes < MIB {
        format!("{:.2} KiB", bytes as f64 / KIB as f64)
    } else if bytes < GIB {
        format!("{:.2} MiB", bytes as f64 / MIB as f64)
    } else if bytes < TIB {
        format!("{:.2} GiB", bytes as f64 / GIB as f64)
    } else {
        format!("{:.2} TiB", bytes as f64 / TIB as f64)
    }
}

#[test]
fn format_bytes_agrees_with_float_formatting() {
    let mut samples: Vec<u64> = vec![1152, 1029, 1034, 5120 + 5, 1_048_576 + 5242, u64::MAX - 1];
    for i in 0..4000u64 {
        samples.push(1024 + i * 7);
        samples.push((1u64 << 20) + i * 5243);
        samples.push((1u64 << 30) + i * 5_368_709);
        samples.push((1u64 << 53) + i * 977);
        samples.push(u64::MAX - i * 123_456_789_123);
        samples.push(i.wrapping_mul(0x9E37_79B9_7F4A_7C15));
    }
    for b in samples {
        assert_eq!(format_bytes(b), reference_bytes(b), "bytes = {b}");
    }
}

#[test]
fn format_scalar_values() {
    assert_eq!(fv(&MetadataValue::U32(42), 8), "42");
    assert_eq!(fv(&MetadataValue::Bool(true), 8), "true");
    assert_eq!(fv(&MetadataValue::String("llama".to_string()), 8), "llama");
}

#[test]
fn format_type_names() {
    assert_eq!(format_type(&MetadataValue::U8(0)), "u8");
    assert_eq!(format_type(&MetadataValue::F32(0f32.to_bits())), "f32");
    assert_eq!(format_type(&MetadataValue::String(String::new())), "string");
    assert_eq!(
        format_type(&MetadataValue::Array(MetadataArray { value_type: ValueKind::U32, items: vec![] })),
        "array"
    );
}

#[test]
fn format_value_floats_are_pieces() {
    let v = MetadataValue::F32(1.5f32.to_bits());
    assert_eq!(format_value(&v, 8), vec![Piece::F32(1.5f32.to_bits())]);
    assert_eq!(fv(&v, 8), "1.5");
    assert_eq!(fv(&MetadataValue::F64(2.25f64.to_bits()), 8), "2.25");
}

fn u32_array(n: u32) -> MetadataValue {
    MetadataValue::Array(MetadataArray {
        value_type: ValueKind::U32,
        items: (0..n).map(MetadataValue::U32).collect(),
    })
}

#[test]
fn format_value_truncates_arrays() {
    assert_eq!(fv(&u32_array(3), 8), "[0, 1, 2]");
    assert_eq!(fv(&u32_array(10), 8), "[0, 1, 2, 3, 4, 5, 6, 7, … 2 more]");
    assert_eq!(fv(&u32_array(0), 8), "[]");
    assert_eq!(fv(&u32_array(5), 0), "[0, 1, 2, 3, 4]");
}

#[test]
fn format_value_nested_arrays() {
    let inner = u32_array(3);
    let outer = MetadataValue::Array(MetadataArray { value_type: ValueKind::Array, items: vec![inner] });
    assert_eq!(fv(&outer, 2), "[[0, 1, … 1 more]]");
}

#[test]
fn shape_empty() {
    assert_eq!(format_shape(&[]), "[]");
}

#[test]
fn shape_vector() {
    assert_eq!(format_shape(&[512]), "[512]");
}

#[test]
fn shape_matrix() {
    assert_eq!(format_shape(&[4096, 4096]), "[4096 × 4096]");
}

#[test]
fn shape_3d() {
    assert_eq!(format_shape(&[2, 4, 8]), "[2 × 4 × 8]");
}

#[test]
fn term_width_is_positive() {
    assert!(term_width() >= 20);
}

#[test]
fn meta_widths_follow_longest_key() {
    assert_eq!(meta_widths(&["a", "bb"], 100), (3, 75));
    assert_eq!(meta_widths(&["general.architecture"], 100), (20, 58));
    assert_eq!(meta_widths(&["general.architecture"], 30), (20, 20));
    assert_eq!(meta_widths(&[], 80), (3, 55));
}

#[test]
fn width_from_terminal_answer() {
    assert_eq!(gguf_analyzer::display::width_from(None), 80);
    assert_eq!(gguf_analyzer::display::width_from(Some(132)), 132);
}
