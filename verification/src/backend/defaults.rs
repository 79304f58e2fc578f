use vstd::prelude::*;

verus! {

/// The built-in font: sixteen five-byte glyphs for the hexadecimal
/// digits, followed by ten ten-byte hires glyphs for the decimal digits
/// that the extended backend uses.
pub open spec fn backend_font() -> Seq<u8> {
    seq![
    0xF0u8, 0x90u8, 0x90u8, 0x90u8, 0xF0u8, 0x20u8, 0x60u8, 0x20u8, 0x20u8, 0x70u8,
    0xF0u8, 0x10u8, 0xF0u8, 0x80u8, 0xF0u8, 0xF0u8, 0x10u8, 0xF0u8, 0x10u8, 0xF0u8,
    0x90u8, 0x90u8, 0xF0u8, 0x10u8, 0x10u8, 0xF0u8, 0x80u8, 0xF0u8, 0x10u8, 0xF0u8,
    0xF0u8, 0x80u8, 0xF0u8, 0x90u8, 0xF0u8, 0xF0u8, 0x10u8, 0x20u8, 0x40u8, 0x40u8,
    0xF0u8, 0x90u8, 0xF0u8, 0x90u8, 0xF0u8, 0xF0u8, 0x90u8, 0xF0u8, 0x10u8, 0xF0u8,
    0xF0u8, 0x90u8, 0xF0u8, 0x90u8, 0x90u8, 0xE0u8, 0x90u8, 0xE0u8, 0x90u8, 0xE0u8,
    0xF0u8, 0x80u8, 0x80u8, 0x80u8, 0xF0u8, 0xE0u8, 0x90u8, 0x90u8, 0x90u8, 0xE0u8,
    0xF0u8, 0x80u8, 0xF0u8, 0x80u8, 0xF0u8, 0xF0u8, 0x80u8, 0xF0u8, 0x80u8, 0x80u8,
    0x3Cu8, 0x7Eu8, 0xE7u8, 0xC3u8, 0xC3u8, 0xC3u8, 0xC3u8, 0xE7u8, 0x7Eu8, 0x3Cu8,
    0x18u8, 0x38u8, 0x58u8, 0x18u8, 0x18u8, 0x18u8, 0x18u8, 0x18u8, 0x18u8, 0x3Cu8,
    0x3Eu8, 0x7Fu8, 0xC3u8, 0x06u8, 0x0Cu8, 0x18u8, 0x30u8, 0x60u8, 0xFFu8, 0xFFu8,
    0x3Cu8, 0x7Eu8, 0xC3u8, 0x03u8, 0x0Eu8, 0x0Eu8, 0x03u8, 0xC3u8, 0x7Eu8, 0x3Cu8,
    0x06u8, 0x0Eu8, 0x1Eu8, 0x36u8, 0x66u8, 0xC6u8, 0xFFu8, 0xFFu8, 0x06u8, 0x06u8,
    0xFFu8, 0xFFu8, 0xC0u8, 0xC0u8, 0xFCu8, 0xFEu8, 0x03u8, 0xC3u8, 0x7Eu8, 0x3Cu8,
    0x3Eu8, 0x7Cu8, 0xC0u8, 0xC0u8, 0xFCu8, 0xFEu8, 0xC3u8, 0xC3u8, 0x7Eu8, 0x3Cu8,
    0xFFu8, 0xFFu8, 0x03u8, 0x06u8, 0x0Cu8, 0x18u8, 0x30u8, 0x60u8, 0x60u8, 0x60u8,
    0x3Cu8, 0x7Eu8, 0xC3u8, 0xC3u8, 0x7Eu8, 0x7Eu8, 0xC3u8, 0xC3u8, 0x7Eu8, 0x3Cu8,
    0x3Cu8, 0x7Eu8, 0xC3u8, 0xC3u8, 0x7Fu8, 0x3Fu8, 0x03u8, 0x03u8, 0x3Eu8, 0x7Cu8,
    ]
}

/// The built-in font as bytes.
pub fn default_font() -> (r: Vec<u8>)
    ensures
        r@ == backend_font(),
        r@.len() == 180,
{
    let r: Vec<u8> = vec![
    0xF0u8, 0x90u8, 0x90u8, 0x90u8, 0xF0u8, 0x20u8, 0x60u8, 0x20u8, 0x20u8, 0x70u8,
    0xF0u8, 0x10u8, 0xF0u8, 0x80u8, 0xF0u8, 0xF0u8, 0x10u8, 0xF0u8, 0x10u8, 0xF0u8,
    0x90u8, 0x90u8, 0xF0u8, 0x10u8, 0x10u8, 0xF0u8, 0x80u8, 0xF0u8, 0x10u8, 0xF0u8,
    0xF0u8, 0x80u8, 0xF0u8, 0x90u8, 0xF0u8, 0xF0u8, 0x10u8, 0x20u8, 0x40u8, 0x40u8,
    0xF0u8, 0x90u8, 0xF0u8, 0x90u8, 0xF0u8, 0xF0u8, 0x90u8, 0xF0u8, 0x10u8, 0xF0u8,
    0xF0u8, 0x90u8, 0xF0u8, 0x90u8, 0x90u8, 0xE0u8, 0x90u8, 0xE0u8, 0x90u8, 0xE0u8,
    0xF0u8, 0x80u8, 0x80u8, 0x80u8, 0xF0u8, 0xE0u8, 0x90u8, 0x90u8, 0x90u8, 0xE0u8,
    0xF0u8, 0x80u8, 0xF0u8, 0x80u8, 0xF0u8, 0xF0u8, 0x80u8, 0xF0u8, 0x80u8, 0x80u8,
    0x3Cu8, 0x7Eu8, 0xE7u8, 0xC3u8, 0xC3u8, 0xC3u8, 0xC3u8, 0xE7u8, 0x7Eu8, 0x3Cu8,
    0x18u8, 0x38u8, 0x58u8, 0x18u8, 0x18u8, 0x18u8, 0x18u8, 0x18u8, 0x18u8, 0x3Cu8,
    0x3Eu8, 0x7Fu8, 0xC3u8, 0x06u8, 0x0Cu8, 0x18u8, 0x30u8, 0x60u8, 0xFFu8, 0xFFu8,
    0x3Cu8, 0x7Eu8, 0xC3u8, 0x03u8, 0x0Eu8, 0x0Eu8, 0x03u8, 0xC3u8, 0x7Eu8, 0x3Cu8,
    0x06u8, 0x0Eu8, 0x1Eu8, 0x36u8, 0x66u8, 0xC6u8, 0xFFu8, 0xFFu8, 0x06u8, 0x06u8,
    0xFFu8, 0xFFu8, 0xC0u8, 0xC0u8, 0xFCu8, 0xFEu8, 0x03u8, 0xC3u8, 0x7Eu8, 0x3Cu8,
    0x3Eu8, 0x7Cu8, 0xC0u8, 0xC0u8, 0xFCu8, 0xFEu8, 0xC3u8, 0xC3u8, 0x7Eu8, 0x3Cu8,
    0xFFu8, 0xFFu8, 0x03u8, 0x06u8, 0x0Cu8, 0x18u8, 0x30u8, 0x60u8, 0x60u8, 0x60u8,
    0x3Cu8, 0x7Eu8, 0xC3u8, 0xC3u8, 0x7Eu8, 0x7Eu8, 0xC3u8, 0xC3u8, 0x7Eu8, 0x3Cu8,
    0x3Cu8, 0x7Eu8, 0xC3u8, 0xC3u8, 0x7Fu8, 0x3Fu8, 0x03u8, 0x03u8, 0x3Eu8, 0x7Cu8,
    ];
    proof {
        assert(r@ =~= backend_font());
    }
    r
}

} // verus!
