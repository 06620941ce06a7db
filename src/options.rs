//! Dense encoding of sampling options as an index in `0..12`.

use vstd::prelude::*;

verus! {

/// Filter used when a texture is magnified or minified.
#[derive(Clone, Copy, Debug, PartialEq, Eq, Structural)]
pub enum TextureFilter {
    Nearest,
    Linear,
}

/// What happens to texture coordinates outside `0..1`.
#[derive(Clone, Copy, Debug, PartialEq, Eq, Structural)]
pub enum TextureWrapMode {
    ClampToEdge,
    Repeat,
    MirroredRepeat,
}

/// How a texture is sampled.
#[derive(Clone, Copy, Debug, PartialEq, Eq, Structural)]
pub struct TextureOptions {
    pub magnification: TextureFilter,
    pub minification: TextureFilter,
    pub wrap_mode: TextureWrapMode,
}

/// Number of distinct sampling-option variants.
pub const VARIANT_COUNT: usize = 12;

impl Default for TextureOptions {
    /// Linear filtering both ways, clamped to the edge.
    fn default() -> (r: TextureOptions)
        ensures
            r == (TextureOptions {
                magnification: TextureFilter::Linear,
                minification: TextureFilter::Linear,
                wrap_mode: TextureWrapMode::ClampToEdge,
            }),
    {
        TextureOptions {
            magnification: TextureFilter::Linear,
            minification: TextureFilter::Linear,
            wrap_mode: TextureWrapMode::ClampToEdge,
        }
    }
}

/// Contribution of a filter: `0` for nearest, `bit` for linear.
pub open spec fn filter_bit(f: TextureFilter, bit: int) -> int {
    match f {
        TextureFilter::Nearest => 0,
        TextureFilter::Linear => bit,
    }
}

/// Contribution of the wrap mode: `0`, `4` or `8`.
pub open spec fn wrap_bits(w: TextureWrapMode) -> int {
    match w {
        TextureWrapMode::ClampToEdge => 0,
        TextureWrapMode::Repeat => 4,
        TextureWrapMode::MirroredRepeat => 8,
    }
}

/// The variant index of a set of options.
pub open spec fn option_bits(o: TextureOptions) -> int {
    filter_bit(o.magnification, 1) + filter_bit(o.minification, 2) + wrap_bits(o.wrap_mode)
}

pub open spec fn filter_of(linear: bool) -> TextureFilter {
    if linear {
        TextureFilter::Linear
    } else {
        TextureFilter::Nearest
    }
}

/// The options that a variant index in `0..12` stands for.
pub open spec fn options_of(bits: int) -> TextureOptions {
    TextureOptions {
        magnification: filter_of(bits % 2 == 1),
        minification: filter_of((bits / 2) % 2 == 1),
        wrap_mode: if bits / 4 == 1 {
            TextureWrapMode::Repeat
        } else if bits / 4 == 2 {
            TextureWrapMode::MirroredRepeat
        } else {
            TextureWrapMode::ClampToEdge
        },
    }
}

/// Variant index of `options`, the OR of the three contributions.
pub fn texture_option_bits(options: TextureOptions) -> (r: usize)
    ensures
        r == option_bits(options),
        r < VARIANT_COUNT,
{
    let magnification: usize = match options.magnification {
        TextureFilter::Nearest => 0,
        TextureFilter::Linear => 1,
    };
    let minification: usize = match options.minification {
        TextureFilter::Nearest => 0,
        TextureFilter::Linear => 2,
    };
    let wrap_mode: usize = match options.wrap_mode {
        TextureWrapMode::ClampToEdge => 0,
        TextureWrapMode::Repeat => 4,
        TextureWrapMode::MirroredRepeat => 8,
    };
    assert(magnification | minification | wrap_mode == magnification + minification + wrap_mode)
        by (bit_vector)
        requires
            magnification == 0 || magnification == 1,
            minification == 0 || minification == 2,
            wrap_mode == 0 || wrap_mode == 4 || wrap_mode == 8,
    ;
    magnification | minification | wrap_mode
}

fn get_filter(bit: bool) -> (r: TextureFilter)
    ensures
        r == filter_of(bit),
{
    if bit {
        TextureFilter::Linear
    } else {
        TextureFilter::Nearest
    }
}

/// The options that the variant index `bits` stands for.
pub fn decode_texture_option_bits(bits: usize) -> (r: TextureOptions)
    requires
        bits < VARIANT_COUNT,
    ensures
        r == options_of(bits as int),
{
    assert(((bits & 1) > 0) == (bits % 2 == 1)) by (bit_vector);
    assert(((bits & 2) > 0) == ((bits / 2) % 2 == 1)) by (bit_vector);
    assert(((bits & 4) > 0) == (bits / 4 == 1)) by (bit_vector)
        requires
            bits < 12,
    ;
    assert(((bits & 4) == 0 && (bits & 8) > 0) == (bits / 4 == 2)) by (bit_vector)
        requires
            bits < 12,
    ;
    TextureOptions {
        magnification: get_filter((bits & 1) > 0),
        minification: get_filter((bits & 2) > 0),
        wrap_mode: if (bits & 4) > 0 {
            TextureWrapMode::Repeat
        } else if (bits & 8) > 0 {
            TextureWrapMode::MirroredRepeat
        } else {
            TextureWrapMode::ClampToEdge
        },
    }
}

/// Decoding a variant index and encoding the options again gives back the
/// index, for every index in `0..12`.
pub proof fn lemma_index_round_trip(i: int)
    requires
        0 <= i < VARIANT_COUNT,
    ensures
        option_bits(options_of(i)) == i,
{
}

/// Encoding options gives an index in `0..12` that decodes to the same
/// options.
pub proof fn lemma_options_round_trip(o: TextureOptions)
    ensures
        0 <= option_bits(o) < VARIANT_COUNT,
        options_of(option_bits(o)) == o,
{
}

} // verus!
