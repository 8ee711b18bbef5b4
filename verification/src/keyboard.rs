//! PS/2 keyboard decoding (AZERTY layout).
//!
//! Reading the controller's ports is I/O and is left to the program around
//! the library; what is decided here is what a raw scan code means.
use vstd::prelude::*;

verus! {

/// Scan codes with this bit set are key-release events.
pub const RELEASE_BIT: u8 = 0x80;

/// ASCII byte for each make code below 58; 0 marks a key with no printable
/// character (Escape, Left Ctrl, Left Shift, Right Shift, Alt, unused).
pub open spec fn ascii_keymap() -> Seq<u8> {
    seq![
        0u8, 0,
        0x26, 0x65, 0x22, 0x27, 0x28, 0x2D, 0x65, 0x5F, 0x63, 0x61, // & e " ' ( - e _ c a
        0x29, 0x3D, // ) =
        0x08, // backspace
        0x09, // tab
        0x61, 0x7A, 0x65, 0x72, 0x74, 0x79, 0x75, 0x69, 0x6F, 0x70, // a z e r t y u i o p
        0x5E, 0x24, // ^ $
        0x0A, // enter
        0,
        0x71, 0x73, 0x64, 0x66, 0x67, 0x68, 0x6A, 0x6B, 0x6C, // q s d f g h j k l
        0x6D, 0x75, 0x60, // m u `
        0,
        0x2A, // *
        0x77, 0x78, 0x63, 0x76, 0x62, 0x6E, 0x2C, // w x c v b n ,
        0x3B, 0x3A, 0x21, // ; : !
        0, 0, 0, // right shift, keypad *, alt
        0x20, // space
    ]
}

/// What `scancode_to_ascii` gives for a scan code: nothing for a release
/// event, the keymap's byte for a make code that has a nonzero entry, and
/// nothing otherwise.
pub open spec fn scancode_ascii(scancode: u8) -> Option<u8> {
    if scancode >= RELEASE_BIT {
        None
    } else if (scancode as int) < ascii_keymap().len() && ascii_keymap()[scancode as int] != 0 {
        Some(ascii_keymap()[scancode as int])
    } else {
        None
    }
}

/// Convert a scan code to an ASCII character.
/// Returns `None` for non-printable keys (shift, ctrl, release events etc).
pub fn scancode_to_ascii(scancode: u8) -> (r: Option<u8>)
    ensures
        r == scancode_ascii(scancode),
{
    // Key release events have bit 7 set — ignore them
    if scancode & RELEASE_BIT != 0 {
        assert(scancode >= 0x80) by (bit_vector)
            requires
                scancode & 0x80u8 != 0,
        ;
        return None;
    }
    assert(scancode < 0x80) by (bit_vector)
        requires
            scancode & 0x80u8 == 0,
    ;
    let table: [u8; 58] = [
        0,     // 0x00 - unused
        0,     // 0x01 - Escape
        0x26, 0x65, 0x22, 0x27, 0x28, 0x2D, 0x65, 0x5F, 0x63, 0x61, // & e " ' ( - e _ c a
        0x29, 0x3D, // ) =
        0x08,  // 0x0E - Backspace
        0x09,  // 0x0F - Tab
        0x61, 0x7A, 0x65, 0x72, 0x74, 0x79, 0x75, 0x69, 0x6F, 0x70, // a z e r t y u i o p
        0x5E, 0x24, // ^ $
        0x0A,  // 0x1C - Enter
        0,     // 0x1D - Left Ctrl
        0x71, 0x73, 0x64, 0x66, 0x67, 0x68, 0x6A, 0x6B, 0x6C, // q s d f g h j k l
        0x6D, 0x75, 0x60, // m u `
        0,     // 0x2A - Left Shift
        0x2A, // *
        0x77, 0x78, 0x63, 0x76, 0x62, 0x6E, 0x2C, // w x c v b n ,
        0x3B, 0x3A, 0x21, // ; : !
        0,     // 0x36 - Right Shift
        0,     // 0x37 - Keypad *
        0,     // 0x38 - Alt
        0x20,  // 0x39 - Space
    ];
    assert(table@ =~= ascii_keymap());
    let idx = scancode as usize;
    if idx < table.len() && table[idx] != 0 {
        Some(table[idx])
    } else {
        None
    }
}

/// Key releases never give a character, and a character given is never the
/// keymap's "no character" 0.
pub proof fn lemma_ascii_of_make_codes_only(scancode: u8)
    ensures
        scancode >= RELEASE_BIT ==> scancode_ascii(scancode) is None,
        scancode_ascii(scancode) matches Some(b) ==> b != 0 && scancode < 58,
{
}

/// The bytes of an ASCII string.
pub open spec fn ascii_of(s: Seq<char>) -> Seq<u8> {
    Seq::new(s.len(), |i: int| s[i] as u8)
}

/// The decoder follows the AZERTY layout, key by key (accented letters
/// give their base letter, 'ù' gives 'u'):
/// - the number row 0x02..=0x0D types `& e " ' ( - e _ c a ) =`;
/// - the top letter row 0x10..=0x1B types `a z e r t y u i o p ^ $`;
/// - the home row 0x1E..=0x29 types `q s d f g h j k l m u` and a backquote;
/// - the bottom row 0x2C..=0x35 types `w x c v b n , ; : !`;
/// - Backspace, Tab, Enter, `*` and the space bar give 0x08, tab, newline,
///   `*` and space;
/// - Escape, the Ctrl, Shift and Alt keys, keypad `*`, unused codes and
///   every code from 0x3A on give nothing.
pub proof fn lemma_azerty_layout()
    ensures
        forall|k: int|
            0 <= k < 12 ==> scancode_ascii((0x02 + k) as u8) == Some(
                #[trigger] ascii_of("&e\"'(-e_ca)="@)[k],
            ),
        forall|k: int|
            0 <= k < 12 ==> scancode_ascii((0x10 + k) as u8) == Some(
                #[trigger] ascii_of("azertyuiop^$"@)[k],
            ),
        forall|k: int|
            0 <= k < 12 ==> scancode_ascii((0x1E + k) as u8) == Some(
                #[trigger] ascii_of("qsdfghjklmu`"@)[k],
            ),
        forall|k: int|
            0 <= k < 10 ==> scancode_ascii((0x2C + k) as u8) == Some(
                #[trigger] ascii_of("wxcvbn,;:!"@)[k],
            ),
        scancode_ascii(0x0E) == Some(0x08u8),
        scancode_ascii(0x0F) == Some(0x09u8),
        scancode_ascii(0x1C) == Some(0x0Au8),
        scancode_ascii(0x2B) == Some(0x2Au8),
        scancode_ascii(0x39) == Some(0x20u8),
        scancode_ascii(0x00) is None,
        scancode_ascii(0x01) is None,
        scancode_ascii(0x1D) is None,
        scancode_ascii(0x2A) is None,
        scancode_ascii(0x36) is None,
        scancode_ascii(0x37) is None,
        scancode_ascii(0x38) is None,
        forall|sc: u8| sc >= 0x3A ==> #[trigger] scancode_ascii(sc) is None,
{
    reveal_strlit("&e\"'(-e_ca)=");
    reveal_strlit("azertyuiop^$");
    reveal_strlit("qsdfghjklmu`");
    reveal_strlit("wxcvbn,;:!");
}

} // verus!
