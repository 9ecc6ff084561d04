use vstd::prelude::*;
use crate::text_rendering::chars::{chars_of, string_from_chars};

verus! {

/// The low byte of an SDL keycode.
pub open spec fn key_byte(keycode: i32) -> u8 {
    keycode as u8
}

/// What a key press makes of the content of a text box, or `None` where
/// the key changes nothing: keycodes of 256 and above are ignored;
/// backspace (8) takes the last character off; keys 32 to 96 append
/// that character; keys 97 to 122 append their letter, in upper case
/// when exactly one of shift and caps lock is on.
pub open spec fn edited_content(content: Seq<char>, keycode: i32, shift: bool, caps: bool) -> Option<
    Seq<char>,
> {
    if keycode >= 256 {
        None
    } else {
        let kc = key_byte(keycode);
        if kc == 8 {
            Some(
                if content.len() > 0 {
                    content.drop_last()
                } else {
                    content
                },
            )
        } else if 32 <= kc <= 96 {
            Some(content.push(kc as char))
        } else if 67 <= kc <= 122 {
            let upper = shift != caps;
            let key: u8 = if upper {
                (kc - 32) as u8
            } else {
                kc
            };
            Some(content.push(key as char))
        } else {
            None
        }
    }
}

/// The content of a text box after a key press, or `None` where the key
/// changes nothing; `shift` tells whether a shift key is held and `caps`
/// whether caps lock is on.
pub fn edit_content(content: &str, keycode: i32, shift: bool, caps: bool) -> (r: Option<String>)
    ensures
        match r {
            Some(s) => edited_content(content@, keycode, shift, caps) == Some(s@),
            None => edited_content(content@, keycode, shift, caps) is None,
        },
{
    if keycode >= 256 {
        return None;
    }
    let kc: u8 = keycode as u8;
    let mut cs = chars_of(content);
    if kc == 8 {
        cs.pop();
        return Some(string_from_chars(cs.as_slice()));
    }
    if 32 <= kc && kc <= 96 {
        cs.push(kc as char);
        return Some(string_from_chars(cs.as_slice()));
    }
    if 67 <= kc && kc <= 122 {
        let upper = shift != caps;
        let key: u8 = if upper {
            kc - 32
        } else {
            kc
        };
        cs.push(key as char);
        return Some(string_from_chars(cs.as_slice()));
    }
    None
}

/// A backspace takes back the character that a key press added.
pub proof fn law_backspace_undoes_typing(content: Seq<char>, keycode: i32, shift: bool, caps: bool)
    requires
        32 <= keycode <= 122,
    ensures
        edited_content(content, keycode, shift, caps) is Some,
        edited_content(edited_content(content, keycode, shift, caps)->0, 8, shift, caps) == Some(
            content,
        ),
{
    assert(key_byte(keycode) == keycode) by (bit_vector)
        requires
            32 <= keycode <= 122,
    ;
    assert(key_byte(8) == 8) by (bit_vector);
    let typed = edited_content(content, keycode, shift, caps)->0;
    assert(typed.drop_last() =~= content);
}

} // verus!
