use bevy_egui::decimal::{parse_u64, write_decimal};
use bevy_egui::image_id::{ImageId, LoadError};
use bevy_egui::options::{
    decode_texture_option_bits, texture_option_bits, TextureFilter, TextureOptions,
    TextureWrapMode,
};

const SAMPLE_UUID: u128 = 0x550e8400_e29b_41d4_a716_446655440000;

#[test]
fn option_bits_of_each_field() {
    let o = TextureOptions {
        magnification: TextureFilter::Nearest,
        minification: TextureFilter::Nearest,
        wrap_mode: TextureWrapMode::ClampToEdge,
    };
    assert_eq!(texture_option_bits(o), 0);
    let o = TextureOptions {
        magnification: TextureFilter::Linear,
        minification: TextureFilter::Nearest,
        wrap_mode: TextureWrapMode::Repeat,
    };
    assert_eq!(texture_option_bits(o), 5);
    let o = TextureOptions {
        magnification: TextureFilter::Linear,
        minification: TextureFilter::Linear,
        wrap_mode: TextureWrapMode::MirroredRepeat,
    };
    assert_eq!(texture_option_bits(o), 11);
    assert_eq!(texture_option_bits(TextureOptions::default()), 3);
}

#[test]
fn option_bits_round_trip_all_indices() {
    for i in 0..12usize {
        assert_eq!(texture_option_bits(decode_texture_option_bits(i)), i);
    }
}

#[test]
fn decode_mirrored_nearest_linear() {
    let o = decode_texture_option_bits(10);
    assert_eq!(o.magnification, TextureFilter::Nearest);
    assert_eq!(o.minification, TextureFilter::Linear);
    assert_eq!(o.wrap_mode, TextureWrapMode::MirroredRepeat);
}

#[test]
fn decimal_text() {
    let mut s = String::from("n=");
    write_decimal(0, &mut s);
    assert_eq!(s, "n=0");
    let mut s = String::new();
    write_decimal(u64::MAX, &mut s);
    assert_eq!(s, "18446744073709551615");
    let mut s = String::new();
    write_decimal(4294967296, &mut s);
    assert_eq!(s, "4294967296");
}

#[test]
fn decimal_parse_edges() {
    assert_eq!(parse_u64("0"), Some(0));
    assert_eq!(parse_u64("007"), Some(7));
    assert_eq!(parse_u64("+42"), Some(42));
    assert_eq!(parse_u64("18446744073709551615"), Some(u64::MAX));
    assert_eq!(parse_u64("18446744073709551616"), None);
    assert_eq!(parse_u64(""), None);
    assert_eq!(parse_u64("+"), None);
    assert_eq!(parse_u64("-1"), None);
    assert_eq!(parse_u64("12a"), None);
    assert_eq!(parse_u64(" 1"), None);
}

#[test]
fn index_key_packs_generation_high() {
    let id = ImageId::Index { index: 5, generation: 1 };
    assert_eq!(id.into_uri(), "bevy://index/4294967301");
    assert_eq!(ImageId::from_key("bevy://index/4294967301"), Ok(id));
    let id = ImageId::Index { index: u32::MAX, generation: u32::MAX };
    assert_eq!(id.into_uri(), "bevy://index/18446744073709551615");
    assert_eq!(ImageId::from_key(&id.into_uri()), Ok(id));
}

#[test]
fn uuid_key_text_and_round_trip() {
    let id = ImageId::Uuid { uuid: SAMPLE_UUID };
    assert_eq!(id.into_uri(), "bevy://uuid/550e8400-e29b-41d4-a716-446655440000");
    assert_eq!(
        ImageId::from_key("bevy://uuid/550e8400-e29b-41d4-a716-446655440000"),
        Ok(id)
    );
    let zero = ImageId::Uuid { uuid: 0 };
    assert_eq!(zero.into_uri(), "bevy://uuid/00000000-0000-0000-0000-000000000000");
    assert_eq!(ImageId::from_key(&zero.into_uri()), Ok(zero));
}

#[test]
fn key_round_trip_samples() {
    let ids = [
        ImageId::Index { index: 0, generation: 0 },
        ImageId::Index { index: 123, generation: 7 },
        ImageId::Uuid { uuid: u128::MAX },
        ImageId::Uuid { uuid: 1 },
    ];
    for id in ids {
        assert_eq!(ImageId::from_key(&id.into_uri()), Ok(id));
    }
}

#[test]
fn malformed_keys_not_supported() {
    for key in [
        "bevy://garbage",
        "http://index/1",
        "bevy:/index/1",
        "bevy://index/",
        "bevy://index/x1",
        "bevy://index/18446744073709551616",
        "bevy://uuid/not-a-uuid",
        "bevy://",
        "",
    ] {
        assert_eq!(ImageId::from_key(key), Err(LoadError::NotSupported), "{key}");
    }
}
