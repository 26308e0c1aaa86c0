//! Key-code discovery and colour quantisation for curses terminals.
use crate::event::{Event, Key};
use crate::theme::{BaseColor, Color};
use std::collections::HashMap;
use vstd::prelude::*;

verus! {

/// Level, in `0..6`, of one channel of a true colour on the colour cube:
/// the bucket below it, not the nearest one.
pub open spec fn cube_level(c: u8) -> int {
    6 * (c as int) / 256
}

/// Whether a true colour is served by the grayscale ramp.
///
/// Black stays on the cube. Grays from 248 up would land past the ramp's last
/// entry (255), so they go to the cube as well, whose white is the nearer one.
pub open spec fn on_gray_ramp(r: u8, g: u8, b: u8) -> bool {
    r == g && g == b && r != 0 && r < 248
}

/// Ramp entry of a gray level: entries start at level 8 and step by 10; the
/// levels below 8 take the first entry.
pub open spec fn gray_index(v: u8) -> int {
    if v < 8 {
        232
    } else {
        232 + (v as int - 8) / 10
    }
}

/// Palette index of a colour cube entry.
pub open spec fn cube_index(r: int, g: int, b: int) -> int {
    16 + 36 * r + 6 * g + b
}

/// Palette index that stands for a colour on a 256-colour terminal; -1 is the
/// terminal's default.
pub open spec fn palette_index(color: Color) -> int {
    match color {
        Color::TerminalDefault => -1,
        Color::Dark(c) => c.spec_ordinal(),
        Color::Light(c) => 8 + c.spec_ordinal(),
        Color::Rgb(r, g, b) => if on_gray_ramp(r, g, b) {
            gray_index(r)
        } else {
            cube_index(cube_level(r), cube_level(g), cube_level(b))
        },
        Color::RgbLowRes(r, g, b) => cube_index(r as int, g as int, b as int),
    }
}

fn cube_level_of(c: u8) -> (r: u16)
    ensures
        r as int == cube_level(c),
        r < 6,
{
    6 * (c as u16) / 256
}

/// Finds the palette index closest to `color`.
pub fn find_closest(color: &Color) -> (r: i16)
    requires
        color.wf(),
    ensures
        r as int == palette_index(*color),
        -1 <= r <= 255,
{
    match *color {
        Color::TerminalDefault => -1,
        Color::Dark(BaseColor::Black) => 0,
        Color::Dark(BaseColor::Red) => 1,
        Color::Dark(BaseColor::Green) => 2,
        Color::Dark(BaseColor::Yellow) => 3,
        Color::Dark(BaseColor::Blue) => 4,
        Color::Dark(BaseColor::Magenta) => 5,
        Color::Dark(BaseColor::Cyan) => 6,
        Color::Dark(BaseColor::White) => 7,
        Color::Light(BaseColor::Black) => 8,
        Color::Light(BaseColor::Red) => 9,
        Color::Light(BaseColor::Green) => 10,
        Color::Light(BaseColor::Yellow) => 11,
        Color::Light(BaseColor::Blue) => 12,
        Color::Light(BaseColor::Magenta) => 13,
        Color::Light(BaseColor::Cyan) => 14,
        Color::Light(BaseColor::White) => 15,
        Color::Rgb(r, g, b) => {
            if r == g && g == b && r != 0 && r < 248 {
                // The ramp's levels are 8 + 10 * n.
                let n: u8 = if r < 8 {
                    0
                } else {
                    (r - 8) / 10
                };
                232 + n as i16
            } else {
                let r = cube_level_of(r);
                let g = cube_level_of(g);
                let b = cube_level_of(b);
                (16 + 36 * r + 6 * g + b) as i16
            }
        },
        Color::RgbLowRes(r, g, b) => 16 + 36 * (r as i16) + 6 * (g as i16) + b as i16,
    }
}

/// The key that a capability abbreviation names, if it is one of the known ten.
pub open spec fn key_of_abbreviation(a: Seq<char>) -> Option<Key> {
    if a == seq!['D', 'C'] {
        Some(Key::Del)
    } else if a == seq!['D', 'N'] {
        Some(Key::Down)
    } else if a == seq!['E', 'N', 'D'] {
        Some(Key::End)
    } else if a == seq!['H', 'O', 'M'] {
        Some(Key::Home)
    } else if a == seq!['I', 'C'] {
        Some(Key::Ins)
    } else if a == seq!['L', 'F', 'T'] {
        Some(Key::Left)
    } else if a == seq!['N', 'X', 'T'] {
        Some(Key::PageDown)
    } else if a == seq!['P', 'R', 'V'] {
        Some(Key::PageUp)
    } else if a == seq!['R', 'I', 'T'] {
        Some(Key::Right)
    } else if a == seq!['U', 'P'] {
        Some(Key::Up)
    } else {
        None
    }
}

/// The event that a modifier digit makes of a key, if the digit is one of
/// `3` to `7`.
pub open spec fn modified_event(d: char, key: Key) -> Option<Event> {
    if d == '3' {
        Some(Event::Alt(key))
    } else if d == '4' {
        Some(Event::AltShift(key))
    } else if d == '5' {
        Some(Event::Ctrl(key))
    } else if d == '6' {
        Some(Event::CtrlShift(key))
    } else if d == '7' {
        Some(Event::CtrlAlt(key))
    } else {
        None
    }
}

/// The event that a capability name stands for: `k`, then a key
/// abbreviation, then one modifier digit.
pub open spec fn key_event(name: Seq<char>) -> Option<Event> {
    if name.len() >= 3 && name[0] == 'k' {
        match key_of_abbreviation(name.subrange(1, name.len() - 1)) {
            Some(key) => modified_event(name.last(), key),
            None => None,
        }
    } else {
        None
    }
}

/// The event, if any, for what the capability lookup returned.
pub open spec fn lookup_event(found: Option<String>) -> Option<Event> {
    match found {
        Some(name) => key_event(name@),
        None => None,
    }
}

/// `after` holds at `code` what `event` puts there over `before`: the event
/// itself, or, where there is none, what `before` held.
pub open spec fn entry_resolved(
    before: Map<i32, Event>,
    after: Map<i32, Event>,
    code: i32,
    event: Option<Event>,
) -> bool {
    match event {
        Some(e) => after.contains_key(code) && after[code] == e,
        None => entry_kept(before, after, code),
    }
}

/// `after` holds at `code` what `before` held.
pub open spec fn entry_kept(before: Map<i32, Event>, after: Map<i32, Event>, code: i32) -> bool {
    &&& after.contains_key(code) == before.contains_key(code)
    &&& before.contains_key(code) ==> after[code] == before[code]
}

/// Whether `code` is in the range that terminals assign to named keys.
pub open spec fn in_key_range(code: i32) -> bool {
    512 <= code < 1024
}

/// `after` is `before` with the key codes that `lookup` names resolved: each
/// code of the range gets the event of one answer that `lookup` may give for
/// it, or keeps its entry where that answer names no event; the other codes
/// keep theirs.
pub open spec fn resolved_by<F: Fn(i32) -> Option<String>>(
    before: Map<i32, Event>,
    after: Map<i32, Event>,
    lookup: F,
) -> bool {
    &&& forall|code: i32|
        #![trigger after.contains_key(code)]
        #![trigger before.contains_key(code)]
        in_key_range(code) ==> exists|found: Option<String>|
            #[trigger] lookup.ensures((code,), found) && entry_resolved(
                before,
                after,
                code,
                lookup_event(found),
            )
    &&& forall|code: i32|
        #![trigger after.contains_key(code)]
        #![trigger before.contains_key(code)]
        !in_key_range(code) ==> entry_kept(before, after, code)
}

/// Whether `s` and `t` hold the same characters.
fn same_chars(s: &str, t: &str) -> (r: bool)
    ensures
        r == (s@ == t@),
{
    let n = s.unicode_len();
    if n != t.unicode_len() {
        return false;
    }
    let mut i: usize = 0;
    while i < n
        invariant
            n == s@.len() == t@.len(),
            i <= n,
            s@.subrange(0, i as int) == t@.subrange(0, i as int),
        decreases n - i,
    {
        if s.get_char(i) != t.get_char(i) {
            return false;
        }
        assert(s@.subrange(0, i + 1) == s@.subrange(0, i as int).push(s@[i as int]));
        assert(t@.subrange(0, i + 1) == t@.subrange(0, i as int).push(t@[i as int]));
        i = i + 1;
    }
    assert(s@ == s@.subrange(0, n as int));
    assert(t@ == t@.subrange(0, n as int));
    true
}

/// Looks up a key abbreviation of the capability database.
pub fn key_from_abbreviation(a: &str) -> (r: Option<Key>)
    ensures
        r == key_of_abbreviation(a@),
{
    proof {
        reveal_strlit("DC");
        assert("DC"@ =~= seq!['D', 'C']);
        reveal_strlit("DN");
        assert("DN"@ =~= seq!['D', 'N']);
        reveal_strlit("END");
        assert("END"@ =~= seq!['E', 'N', 'D']);
        reveal_strlit("HOM");
        assert("HOM"@ =~= seq!['H', 'O', 'M']);
        reveal_strlit("IC");
        assert("IC"@ =~= seq!['I', 'C']);
        reveal_strlit("LFT");
        assert("LFT"@ =~= seq!['L', 'F', 'T']);
        reveal_strlit("NXT");
        assert("NXT"@ =~= seq!['N', 'X', 'T']);
        reveal_strlit("PRV");
        assert("PRV"@ =~= seq!['P', 'R', 'V']);
        reveal_strlit("RIT");
        assert("RIT"@ =~= seq!['R', 'I', 'T']);
        reveal_strlit("UP");
        assert("UP"@ =~= seq!['U', 'P']);
    }
    if same_chars(a, "DC") {
        Some(Key::Del)
    } else if same_chars(a, "DN") {
        Some(Key::Down)
    } else if same_chars(a, "END") {
        Some(Key::End)
    } else if same_chars(a, "HOM") {
        Some(Key::Home)
    } else if same_chars(a, "IC") {
        Some(Key::Ins)
    } else if same_chars(a, "LFT") {
        Some(Key::Left)
    } else if same_chars(a, "NXT") {
        Some(Key::PageDown)
    } else if same_chars(a, "PRV") {
        Some(Key::PageUp)
    } else if same_chars(a, "RIT") {
        Some(Key::Right)
    } else if same_chars(a, "UP") {
        Some(Key::Up)
    } else {
        None
    }
}

fn modify(d: char, key: Key) -> (r: Option<Event>)
    ensures
        r == modified_event(d, key),
{
    match d {
        '3' => Some(Event::Alt(key)),
        '4' => Some(Event::AltShift(key)),
        '5' => Some(Event::Ctrl(key)),
        '6' => Some(Event::CtrlShift(key)),
        '7' => Some(Event::CtrlAlt(key)),
        _ => None,
    }
}

/// Decodes a capability name into the event it stands for. Names that are not
/// a known key with a known modifier digit give `None`.
pub fn decode_key_name(name: &str) -> (r: Option<Event>)
    ensures
        r == key_event(name@),
{
    let n = name.unicode_len();
    if n < 3 || name.get_char(0) != 'k' {
        return None;
    }
    let key = match key_from_abbreviation(name.substring_char(1, n - 1)) {
        Some(key) => key,
        None => return None,
    };
    modify(name.get_char(n - 1), key)
}

/// Fills `target` with the events of the key codes that `lookup` names.
///
/// Every code in `512..1024` is looked up once. A code whose name is missing,
/// or is no known key with a known modifier digit, leaves its entry as it was;
/// any other overwrites its entry with the decoded event.
pub fn fill_key_codes<F>(target: &mut HashMap<i32, Event>, lookup: F)
    where
        F: Fn(i32) -> Option<String>,
    requires
        forall|code: i32| #[trigger] in_key_range(code) ==> lookup.requires((code,)),
    ensures
        resolved_by(old(target)@, final(target)@, lookup),
{
    broadcast use vstd::std_specs::hash::group_hash_axioms;

    let ghost before = target@;
    let ghost mut found_at: Map<i32, Option<String>> = Map::empty();
    let mut code: i32 = 512;
    while code < 1024
        invariant
            512 <= code <= 1024,
            forall|c: i32| #[trigger] in_key_range(c) ==> lookup.requires((c,)),
            forall|c: i32|
                #![trigger target@.contains_key(c)]
                #![trigger found_at.contains_key(c)]
                512 <= c < code ==> found_at.contains_key(c) && lookup.ensures((c,), found_at[c])
                    && entry_resolved(before, target@, c, lookup_event(found_at[c])),
            forall|c: i32|
                #![trigger target@.contains_key(c)]
                #![trigger before.contains_key(c)]
                !(512 <= c < code) ==> entry_kept(before, target@, c),
        decreases 1024 - code,
    {
        assert(in_key_range(code));
        let ghost prev = target@;
        let found = lookup(code);
        proof {
            found_at = found_at.insert(code, found);
        }
        let event = match &found {
            Some(name) => decode_key_name(name.as_str()),
            None => None,
        };
        if let Some(event) = event {
            target.insert(code, event);
        }
        assert(entry_resolved(prev, target@, code, lookup_event(found)));
        assert forall|c: i32| c != code implies entry_kept(prev, target@, c) by {}
        code = code + 1;
    }
    assert forall|c: i32| in_key_range(c) implies exists|found: Option<String>|
        #[trigger] lookup.ensures((c,), found) && entry_resolved(
            before,
            target@,
            c,
            lookup_event(found),
        ) by {
        assert(found_at.contains_key(c));
        assert(lookup.ensures((c,), found_at[c]));
    }
}

/// Whether `lookup` gives one answer only for each code.
pub open spec fn answers_consistently<F: Fn(i32) -> Option<String>>(lookup: F) -> bool {
    forall|code: i32, a: Option<String>, b: Option<String>|
        #[trigger] lookup.ensures((code,), a) && #[trigger] lookup.ensures((code,), b) ==> a == b
}

/// The capability abbreviation of a key.
pub open spec fn abbreviation(key: Key) -> Seq<char> {
    match key {
        Key::Del => seq!['D', 'C'],
        Key::Down => seq!['D', 'N'],
        Key::End => seq!['E', 'N', 'D'],
        Key::Home => seq!['H', 'O', 'M'],
        Key::Ins => seq!['I', 'C'],
        Key::Left => seq!['L', 'F', 'T'],
        Key::PageDown => seq!['N', 'X', 'T'],
        Key::PageUp => seq!['P', 'R', 'V'],
        Key::Right => seq!['R', 'I', 'T'],
        Key::Up => seq!['U', 'P'],
    }
}

/// An answer of `lookup` for `code` that the resolution went by.
proof fn lemma_some_answer<F: Fn(i32) -> Option<String>>(
    lookup: F,
    before: Map<i32, Event>,
    after: Map<i32, Event>,
    code: i32,
) -> (found: Option<String>)
    requires
        resolved_by(before, after, lookup),
        in_key_range(code),
    ensures
        lookup.ensures((code,), found),
        entry_resolved(before, after, code, lookup_event(found)),
{
    assert(after.contains_key(code) == after.contains_key(code));
    choose|found: Option<String>|
        #[trigger] lookup.ensures((code,), found) && entry_resolved(
            before,
            after,
            code,
            lookup_event(found),
        )
}

/// The answer that `lookup` gives for `code`, where it answers consistently.
proof fn lemma_only_answer<F: Fn(i32) -> Option<String>>(
    lookup: F,
    before: Map<i32, Event>,
    after: Map<i32, Event>,
    code: i32,
    found: Option<String>,
)
    requires
        answers_consistently(lookup),
        resolved_by(before, after, lookup),
        in_key_range(code),
        lookup.ensures((code,), found),
    ensures
        entry_resolved(before, after, code, lookup_event(found)),
{
    let other = lemma_some_answer(lookup, before, after, code);
    assert(other == found);
}

/// A code of the key range whose name does not start with `k` gets no entry
/// when resolved into an empty map.
pub proof fn lemma_unprefixed_name_skipped<F: Fn(i32) -> Option<String>>(
    lookup: F,
    resolved: Map<i32, Event>,
    code: i32,
    name: String,
)
    requires
        answers_consistently(lookup),
        resolved_by(Map::empty(), resolved, lookup),
        in_key_range(code),
        lookup.ensures((code,), Some(name)),
        name@.len() == 0 || name@[0] != 'k',
    ensures
        !resolved.contains_key(code),
{
    lemma_only_answer(lookup, Map::empty(), resolved, code, Some(name));
}

/// `k`, a known key abbreviation and a modifier digit from `3` to `7` decode
/// to that key with that digit's modifiers.
pub proof fn lemma_composed_name_decodes(key: Key, digit: char)
    requires
        '3' <= digit <= '7',
    ensures
        modified_event(digit, key) is Some,
        key_event(seq!['k'] + abbreviation(key) + seq![digit]) == modified_event(digit, key),
{
    let name = seq!['k'] + abbreviation(key) + seq![digit];
    assert(name.subrange(1, name.len() - 1) =~= abbreviation(key));
    assert(name.last() == digit);
    assert(key_of_abbreviation(abbreviation(key)) == Some(key)) by {
        match key {
            Key::Del => {},
            Key::Down => assert(seq!['D', 'N'][1] != seq!['D', 'C'][1]),
            Key::End => {},
            Key::Home => {},
            Key::Ins => assert(seq!['I', 'C'][0] != seq!['D', 'C'][0]),
            Key::Left => {},
            Key::PageDown => {},
            Key::PageUp => {},
            Key::Right => {},
            Key::Up => assert(seq!['U', 'P'][0] != seq!['D', 'C'][0]),
        }
    }
}

/// A code of the key range whose name is `k`, a known key abbreviation and a
/// modifier digit from `3` to `7` resolves to that key with that digit's
/// modifiers.
pub proof fn lemma_composed_name_resolved<F: Fn(i32) -> Option<String>>(
    lookup: F,
    before: Map<i32, Event>,
    resolved: Map<i32, Event>,
    code: i32,
    name: String,
    key: Key,
    digit: char,
)
    requires
        answers_consistently(lookup),
        resolved_by(before, resolved, lookup),
        in_key_range(code),
        lookup.ensures((code,), Some(name)),
        '3' <= digit <= '7',
        name@ == seq!['k'] + abbreviation(key) + seq![digit],
    ensures
        resolved.contains_key(code),
        Some(resolved[code]) == modified_event(digit, key),
{
    lemma_composed_name_decodes(key, digit);
    lemma_only_answer(lookup, before, resolved, code, Some(name));
}

/// Resolving twice with one consistent lookup into two empty maps gives the
/// same map.
pub proof fn lemma_resolution_repeatable<F: Fn(i32) -> Option<String>>(
    lookup: F,
    first: Map<i32, Event>,
    second: Map<i32, Event>,
)
    requires
        answers_consistently(lookup),
        resolved_by(Map::empty(), first, lookup),
        resolved_by(Map::empty(), second, lookup),
    ensures
        first == second,
{
    assert forall|code: i32| #[trigger] first.contains_key(code) == second.contains_key(code)
        && (first.contains_key(code) ==> first[code] == second[code]) by {
        if in_key_range(code) {
            let found = lemma_some_answer(lookup, Map::empty(), first, code);
            lemma_only_answer(lookup, Map::empty(), second, code, found);
        }
    }
    assert(first =~= second);
}

/// The four bytes of a 32-bit word, least significant first.
pub open spec fn le_bytes(w: u32) -> Seq<u8> {
    seq![
        (w % 0x100) as u8,
        (w / 0x100 % 0x100) as u8,
        (w / 0x10000 % 0x100) as u8,
        (w / 0x1000000) as u8,
    ]
}

/// Splits `code` into its four bytes, least significant first.
pub fn split_i32(code: i32) -> (r: Vec<u8>)
    ensures
        r@ == le_bytes(code as u32),
{
    let w = code as u32;
    assert(w & 0xff == w % 0x100) by (bit_vector);
    assert((w >> 8u32) & 0xff == w / 0x100 % 0x100) by (bit_vector);
    assert((w >> 16u32) & 0xff == w / 0x10000 % 0x100) by (bit_vector);
    assert((w >> 24u32) & 0xff == w / 0x1000000) by (bit_vector);
    let mut r: Vec<u8> = Vec::new();
    r.push((w & 0xff) as u8);
    r.push(((w >> 8u32) & 0xff) as u8);
    r.push(((w >> 16u32) & 0xff) as u8);
    r.push(((w >> 24u32) & 0xff) as u8);
    assert(r@ =~= le_bytes(w));
    r
}

} // verus!
