//! A keyboard remap: text typed on a Persian layout, read as the keys of a
//! QWERTY layout.

use crate::text::{chars_of, string_of};
use std::collections::HashMap;
use vstd::prelude::*;

verus! {

broadcast use vstd::std_specs::hash::group_hash_axioms;

/// The table: for the code point of each Persian letter, mark and digit, the
/// character that the same key gives on a QWERTY layout.
#[verifier::opaque]
pub open spec fn keymap() -> Map<u32, char> {
    map![
        0x0636u32 => 'q',
        0x0635u32 => 'w',
        0x062Bu32 => 'e',
        0x0642u32 => 'r',
        0x0641u32 => 't',
        0x063Au32 => 'y',
        0x0639u32 => 'u',
        0x0647u32 => 'i',
        0x062Eu32 => 'o',
        0x062Du32 => 'p',
        0x062Cu32 => '[',
        0x0686u32 => ']',
        0x0634u32 => 'a',
        0x0633u32 => 's',
        0x06CCu32 => 'd',
        0x0628u32 => 'f',
        0x0644u32 => 'g',
        0x0627u32 => 'h',
        0x062Au32 => 'j',
        0x0646u32 => 'k',
        0x0645u32 => 'l',
        0x06A9u32 => ';',
        0x06AFu32 => '\'',
        0x0638u32 => 'z',
        0x0637u32 => 'x',
        0x0632u32 => 'c',
        0x0631u32 => 'v',
        0x0630u32 => 'b',
        0x062Fu32 => 'n',
        0x067Eu32 => 'm',
        0x0648u32 => ',',
        0x061Fu32 => '?',
        0x060Cu32 => ',',
        0x06F0u32 => '0',
        0x06F1u32 => '1',
        0x06F2u32 => '2',
        0x06F3u32 => '3',
        0x06F4u32 => '4',
        0x06F5u32 => '5',
        0x06F6u32 => '6',
        0x06F7u32 => '7',
        0x06F8u32 => '8',
        0x06F9u32 => '9',
    ]
}

/// The QWERTY character for `c`: what the table gives for it, or `c` itself
/// where the table has no entry.
pub open spec fn remap(c: char) -> char {
    if keymap().contains_key(c as u32) {
        keymap()[c as u32]
    } else {
        c
    }
}

/// `s` with each character remapped.
pub open spec fn remapped(s: Seq<char>) -> Seq<char> {
    s.map_values(|c: char| remap(c))
}

/// The table, keyed by code point.
pub fn persian_keymap() -> (map: HashMap<u32, char>)
    ensures
        map@ == keymap(),
{
    let mut map: HashMap<u32, char> = HashMap::new();
    map.insert(0x0636, 'q');  // dad
    map.insert(0x0635, 'w');  // sad
    map.insert(0x062B, 'e');  // theh
    map.insert(0x0642, 'r');  // qaf
    map.insert(0x0641, 't');  // feh
    map.insert(0x063A, 'y');  // ghain
    map.insert(0x0639, 'u');  // ain
    map.insert(0x0647, 'i');  // heh
    map.insert(0x062E, 'o');  // khah
    map.insert(0x062D, 'p');  // hah
    map.insert(0x062C, '[');  // jeem
    map.insert(0x0686, ']');  // tcheh
    map.insert(0x0634, 'a');  // sheen
    map.insert(0x0633, 's');  // seen
    map.insert(0x06CC, 'd');  // farsi yeh
    map.insert(0x0628, 'f');  // beh
    map.insert(0x0644, 'g');  // lam
    map.insert(0x0627, 'h');  // alef
    map.insert(0x062A, 'j');  // teh
    map.insert(0x0646, 'k');  // noon
    map.insert(0x0645, 'l');  // meem
    map.insert(0x06A9, ';');  // keheh
    map.insert(0x06AF, '\'');  // gaf
    map.insert(0x0638, 'z');  // zah
    map.insert(0x0637, 'x');  // tah
    map.insert(0x0632, 'c');  // zain
    map.insert(0x0631, 'v');  // reh
    map.insert(0x0630, 'b');  // thal
    map.insert(0x062F, 'n');  // dal
    map.insert(0x067E, 'm');  // peh
    map.insert(0x0648, ',');  // waw
    map.insert(0x061F, '?');  // question mark
    map.insert(0x060C, ',');  // comma
    map.insert(0x06F0, '0');  // digit zero
    map.insert(0x06F1, '1');  // digit one
    map.insert(0x06F2, '2');  // digit two
    map.insert(0x06F3, '3');  // digit three
    map.insert(0x06F4, '4');  // digit four
    map.insert(0x06F5, '5');  // digit five
    map.insert(0x06F6, '6');  // digit six
    map.insert(0x06F7, '7');  // digit seven
    map.insert(0x06F8, '8');  // digit eight
    map.insert(0x06F9, '9');  // digit nine
    proof {
        reveal(keymap);
    }
    map
}

/// The QWERTY character for `c` by the table `map`.
fn remap_char(map: &HashMap<u32, char>, c: char) -> (r: char)
    requires
        map@ == keymap(),
    ensures
        r == remap(c),
{
    let code: u32 = c as u32;
    match map.get(&code) {
        Some(key) => *key,
        None => c,
    }
}

/// `input` with each Persian character replaced by the QWERTY character of
/// its key; every other character stays as it is.
pub fn persian_to_qwerty(input: &str) -> (r: String)
    ensures
        r@ == remapped(input@),
{
    let map = persian_keymap();
    let chars = chars_of(input);
    let mut out: Vec<char> = Vec::new();
    let mut i: usize = 0;
    while i < chars.len()
        invariant
            i <= chars.len(),
            map@ == keymap(),
            out@ == remapped(chars@.take(i as int)),
        decreases chars.len() - i,
    {
        out.push(remap_char(&map, chars[i]));
        i += 1;
    }
    string_of(&out)
}

} // verus!
