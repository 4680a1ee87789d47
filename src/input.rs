use vstd::prelude::*;

verus! {

/// Pixel height of one text line in the window.
pub const LINE_HEIGHT_PX: u32 = 42;

/// Pixel advance of one column in the window.
pub const COLUMN_WIDTH_PX: u32 = 25;

/// The keys that are sent to the shell as fixed byte sequences.
#[derive(Clone, Copy, Debug, PartialEq, Eq, Structural)]
pub enum NamedKey {
    Backspace,
    Enter,
    Space,
    ArrowUp,
    ArrowDown,
    ArrowRight,
    ArrowLeft,
}

/// The bytes a key sends: a control byte, a space, or an escape sequence for an arrow.
pub open spec fn key_sequence(key: NamedKey) -> Seq<u8> {
    match key {
        NamedKey::Backspace => seq![0x08u8],
        NamedKey::Enter => seq![0x0du8],
        NamedKey::Space => seq![0x20u8],
        NamedKey::ArrowUp => seq![0x1bu8, 0x5bu8, 0x41u8],
        NamedKey::ArrowDown => seq![0x1bu8, 0x5bu8, 0x42u8],
        NamedKey::ArrowRight => seq![0x1bu8, 0x5bu8, 0x43u8],
        NamedKey::ArrowLeft => seq![0x1bu8, 0x5bu8, 0x44u8],
    }
}

fn escape_sequence(last: u8) -> (r: Vec<u8>)
    ensures
        r@ == seq![0x1bu8, 0x5bu8, last],
{
    let mut r = Vec::new();
    r.push(0x1b);
    r.push(0x5b);
    r.push(last);
    assert(r@ =~= seq![0x1bu8, 0x5bu8, last]);
    r
}

fn single_byte(b: u8) -> (r: Vec<u8>)
    ensures
        r@ == seq![b],
{
    let mut r = Vec::new();
    r.push(b);
    assert(r@ =~= seq![b]);
    r
}

/// The bytes to write to the shell for `key`.
pub fn key_bytes(key: NamedKey) -> (r: Vec<u8>)
    ensures
        r@ == key_sequence(key),
{
    match key {
        NamedKey::Backspace => single_byte(0x08),
        NamedKey::Enter => single_byte(0x0d),
        NamedKey::Space => single_byte(0x20),
        NamedKey::ArrowUp => escape_sequence(0x41),
        NamedKey::ArrowDown => escape_sequence(0x42),
        NamedKey::ArrowRight => escape_sequence(0x43),
        NamedKey::ArrowLeft => escape_sequence(0x44),
    }
}

/// The rows and columns of whole cells in a window of `width_px` by `height_px` pixels, each
/// at most `u16::MAX`.
pub fn grid_size(width_px: u32, height_px: u32) -> (r: (u16, u16))
    ensures
        r.0 as int == if height_px / LINE_HEIGHT_PX <= u16::MAX {
            height_px / LINE_HEIGHT_PX
        } else {
            u16::MAX as u32
        },
        r.1 as int == if width_px / COLUMN_WIDTH_PX <= u16::MAX {
            width_px / COLUMN_WIDTH_PX
        } else {
            u16::MAX as u32
        },
{
    let rows = height_px / LINE_HEIGHT_PX;
    let cols = width_px / COLUMN_WIDTH_PX;
    let rows: u16 = if rows <= u16::MAX as u32 { rows as u16 } else { u16::MAX };
    let cols: u16 = if cols <= u16::MAX as u32 { cols as u16 } else { u16::MAX };
    (rows, cols)
}

} // verus!
