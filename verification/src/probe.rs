//! Debug-bridge queries answered from probe-rs: the chip families it knows,
//! as a JSON array of names for the firmware target pickers.

use vstd::prelude::*;

verus! {

broadcast use vstd::string::group_string_axioms;

/// View of a list of strings.
pub open spec fn names_view(v: Seq<String>) -> Seq<Seq<char>> {
    v.map_values(|s: String| s@)
}

/// The generic targets probe-rs appends after its built-in families.
pub open spec fn generic_families() -> Seq<Seq<char>> {
    seq!["Generic ARMv6-M"@, "Generic ARMv7-M"@, "Generic ARMv7E-M"@, "Generic ARMv8-M"@, "Generic RISC-V"@]
}

/// A lowercase hexadecimal digit.
pub open spec fn hex_digit(d: int) -> char {
    if d < 10 {
        (d + 48) as char
    } else {
        (d + 87) as char
    }
}

/// How `serde_json` writes one character inside a JSON string: `"` and `\`
/// backslash-escaped, the usual short escapes for backspace, tab, line feed,
/// form feed and carriage return, `\u00XX` (lowercase hex) for the other
/// control characters below U+0020, and every other character as it is.
pub open spec fn json_char(c: char) -> Seq<char> {
    let u = c as int;
    if c == '"' {
        seq!['\\', '"']
    } else if c == '\\' {
        seq!['\\', '\\']
    } else if u == 8 {
        seq!['\\', 'b']
    } else if u == 9 {
        seq!['\\', 't']
    } else if u == 10 {
        seq!['\\', 'n']
    } else if u == 12 {
        seq!['\\', 'f']
    } else if u == 13 {
        seq!['\\', 'r']
    } else if u < 0x20 {
        seq!['\\', 'u', '0', '0', hex_digit(u / 16), hex_digit(u % 16)]
    } else {
        seq![c]
    }
}

/// A JSON string literal for `s`.
pub open spec fn json_string(s: Seq<char>) -> Seq<char> {
    seq!['"'] + s.map_values(|c: char| json_char(c)).flatten() + seq!['"']
}

/// The string literals of `items`, separated by commas.
pub open spec fn json_items(items: Seq<Seq<char>>) -> Seq<char>
    decreases items.len(),
{
    if items.len() == 0 {
        seq![]
    } else if items.len() == 1 {
        json_string(items[0])
    } else {
        json_items(items.drop_last()) + seq![','] + json_string(items.last())
    }
}

/// The compact JSON text `serde_json` writes for an array of strings:
/// `[`, the string literals separated by commas, `]`.
pub open spec fn json_string_array_text(items: Seq<Seq<char>>) -> Seq<char> {
    seq!['['] + json_items(items) + seq![']']
}

/// The names of the chip families in probe-rs's registry
/// (`Registry::from_builtin_families().families()`): the built-in families,
/// then the five generic targets. Which built-in families there are is left
/// to probe-rs and not stated.
#[verifier::external_body]
fn chip_family_names() -> (names: Vec<String>)
    ensures
        names@.len() >= 5,
        names_view(names@).skip(names@.len() - 5) == generic_families(),
{
    let registry = probe_rs::config::Registry::from_builtin_families();
    registry.families().iter().map(|f| f.name.clone()).collect()
}

/// `serde_json::Value::from(items).to_string()`: the compact JSON array of
/// the strings, as [`json_string_array_text`] spells it out.
#[verifier::external_body]
fn json_string_array(items: Vec<String>) -> (s: String)
    ensures
        s@ == json_string_array_text(names_view(items@)),
{
    serde_json::Value::from(items).to_string()
}

/// The names of the chip families probe-rs knows, as a JSON array: its
/// built-in families followed by its generic targets.
pub fn list_chip_families() -> (s: String)
    ensures
        exists|names: Seq<Seq<char>>|
            names.len() >= 5 && names.skip(names.len() - 5) == generic_families() && s@ == json_string_array_text(
                names,
            ),
{
    let names = chip_family_names();
    let ghost nv = names_view(names@);
    let s = json_string_array(names);
    assert(nv.len() >= 5 && nv.skip(nv.len() - 5) == generic_families() && s@ == json_string_array_text(nv));
    s
}

} // verus!
