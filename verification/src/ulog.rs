//! PX4 **ULog** flight-log parser.
//!
//! Reads the ULog binary format — header, definitions ('F' formats, 'A'
//! subscriptions, 'I' info) and data ('D' records, 'L' logged strings) — and
//! decodes every flat numeric field of every subscribed message into a named
//! time series (`message[instance].field`, arrays expanded to `field[i]`).
//! Nested-struct fields are size-skipped.
//!
//! Samples keep their raw little-endian bits together with the field's base
//! type, and timestamps stay in raw microseconds; converting a sample to a
//! number is left to the caller.

use vstd::prelude::*;

use vstd::slice::slice_subrange;

use crate::text::{
    chars_eq, chars_of, decimal, lex_lt, decimal_int, ends_with, ends_with_chars, find, find_char, lossy_chars, lossy_string,
    parse_usize, parse_usize_chars, push_chars, push_decimal, push_decimal_i64, slice_chars, split, split_chars, split_once,
    split_once_chars, starts_with, starts_with_chars, trim, trim_chars, trim_end_matches,
    trim_end_matches_chars, utf8_lossy, views,
};

verus! {

broadcast use vstd::string::group_string_axioms;

/// The ULog file magic.
pub open spec fn magic() -> Seq<u8> {
    seq![0x55u8, 0x4Cu8, 0x6Fu8, 0x67u8, 0x01u8, 0x12u8, 0x35u8]
}

/// Base (non-struct) field type.
#[derive(Clone, Copy, PartialEq, Eq, Debug, Structural)]
pub enum Base {
    U8,
    I8,
    U16,
    I16,
    U32,
    I32,
    U64,
    I64,
    F32,
    F64,
    Bool,
    Char,
}

/// The base type a type name denotes, if any.
pub open spec fn base_of(s: Seq<char>) -> Option<Base> {
    if s == "uint8_t"@ {
        Some(Base::U8)
    } else if s == "int8_t"@ {
        Some(Base::I8)
    } else if s == "uint16_t"@ {
        Some(Base::U16)
    } else if s == "int16_t"@ {
        Some(Base::I16)
    } else if s == "uint32_t"@ {
        Some(Base::U32)
    } else if s == "int32_t"@ {
        Some(Base::I32)
    } else if s == "uint64_t"@ {
        Some(Base::U64)
    } else if s == "int64_t"@ {
        Some(Base::I64)
    } else if s == "float"@ {
        Some(Base::F32)
    } else if s == "double"@ {
        Some(Base::F64)
    } else if s == "bool"@ {
        Some(Base::Bool)
    } else if s == "char"@ {
        Some(Base::Char)
    } else {
        None
    }
}

/// Serialized size of a base type in bytes.
pub open spec fn base_size(b: Base) -> nat {
    match b {
        Base::U8 | Base::I8 | Base::Bool | Base::Char => 1,
        Base::U16 | Base::I16 => 2,
        Base::U32 | Base::I32 | Base::F32 => 4,
        Base::U64 | Base::I64 | Base::F64 => 8,
    }
}

impl Base {
    /// Parse a ULog base type name.
    pub fn from_str(s: &[char]) -> (r: Option<Base>)
        ensures
            r == base_of(s@),
    {
        if chars_eq(s, chars_of("uint8_t").as_slice()) {
            Some(Base::U8)
        } else if chars_eq(s, chars_of("int8_t").as_slice()) {
            Some(Base::I8)
        } else if chars_eq(s, chars_of("uint16_t").as_slice()) {
            Some(Base::U16)
        } else if chars_eq(s, chars_of("int16_t").as_slice()) {
            Some(Base::I16)
        } else if chars_eq(s, chars_of("uint32_t").as_slice()) {
            Some(Base::U32)
        } else if chars_eq(s, chars_of("int32_t").as_slice()) {
            Some(Base::I32)
        } else if chars_eq(s, chars_of("uint64_t").as_slice()) {
            Some(Base::U64)
        } else if chars_eq(s, chars_of("int64_t").as_slice()) {
            Some(Base::I64)
        } else if chars_eq(s, chars_of("float").as_slice()) {
            Some(Base::F32)
        } else if chars_eq(s, chars_of("double").as_slice()) {
            Some(Base::F64)
        } else if chars_eq(s, chars_of("bool").as_slice()) {
            Some(Base::Bool)
        } else if chars_eq(s, chars_of("char").as_slice()) {
            Some(Base::Char)
        } else {
            None
        }
    }

    /// Serialized size in bytes.
    pub fn size(self) -> (n: usize)
        ensures
            n == base_size(self),
    {
        match self {
            Base::U8 | Base::I8 | Base::Bool | Base::Char => 1,
            Base::U16 | Base::I16 => 2,
            Base::U32 | Base::I32 | Base::F32 => 4,
            Base::U64 | Base::I64 | Base::F64 => 8,
        }
    }
}

/// Little-endian unsigned value of a byte sequence.
pub open spec fn le_value(bs: Seq<u8>) -> nat
    decreases bs.len(),
{
    if bs.len() == 0 {
        0
    } else {
        bs[0] as nat + 256 * le_value(bs.drop_first())
    }
}

/// `256^n`.
pub open spec fn pow256(n: nat) -> nat
    decreases n,
{
    if n == 0 {
        1
    } else {
        256 * pow256((n - 1) as nat)
    }
}

proof fn lemma_le_value_bound(bs: Seq<u8>)
    ensures
        le_value(bs) < pow256(bs.len()),
    decreases bs.len(),
{
    if bs.len() > 0 {
        lemma_le_value_bound(bs.drop_first());
        assert(pow256(bs.len()) == 256 * pow256((bs.len() - 1) as nat));
    }
}

/// Read a little-endian unsigned integer of at most eight bytes.
pub fn read_le(bs: &[u8], lo: usize, n: usize) -> (v: u64)
    requires
        n <= 8,
        lo + n <= bs@.len(),
    ensures
        v as nat == le_value(bs@.subrange(lo as int, lo + n)),
{
    let len = bs.len();
    let mut v: u64 = 0;
    let mut k: usize = n;
    proof {
        assert(pow256(7) == 0x100_0000_0000_0000) by {
            reveal_with_fuel(pow256, 8);
        }
    }
    while k > 0
        invariant
            k <= n <= 8,
            lo + n <= bs@.len(),
            v as nat == le_value(bs@.subrange(lo + k, lo + n)),
            pow256(7) == 0x100_0000_0000_0000,
            len == bs@.len(),
        decreases k,
    {
        let ghost tail = bs@.subrange(lo + k, lo + n);
        proof {
            lemma_le_value_bound(tail);
            lemma_pow256_mono(tail.len(), 7);
        }
        let b = bs[lo + k - 1];
        let ghost ext = bs@.subrange(lo + k - 1, lo + n);
        assert(ext.drop_first() =~= tail);
        assert(ext[0] == b);
        v = (b as u64) + 256 * v;
        k = k - 1;
    }
    v
}

proof fn lemma_pow256_mono(a: nat, b: nat)
    requires
        a <= b,
    ensures
        pow256(a) <= pow256(b),
    decreases b,
{
    if a < b {
        lemma_pow256_mono(a, (b - 1) as nat);
    }
}

/// `token` split into its base type and array length: `float[3]` is
/// `("float", 3)`; a missing or unparsable length, or a zero one, counts as 1.
pub open spec fn split_array_of(token: Seq<char>) -> (Seq<char>, nat) {
    let k = find(token, '[');
    if k < 0 {
        (token, 1)
    } else {
        let n = match parse_usize(trim_end_matches(token.skip(k + 1), ']')) {
            Some(v) => v as nat,
            None => 1,
        };
        (token.take(k), if n == 0 {
            1
        } else {
            n
        })
    }
}

/// Split a type token like `float[3]` into `("float", 3)`.
pub fn split_array(token: &[char]) -> (r: (Vec<char>, usize))
    ensures
        (r.0@, r.1 as nat) == split_array_of(token@),
{
    match find_char(token, '[') {
        Some(open) => {
            proof {
                crate::text::lemma_find_from(token@, '[', 0);
            }
            let n = token.len();
            let base = slice_chars(token, 0, open);
            let rest = slice_chars(token, open + 1, n);
            assert(base@ =~= token@.take(open as int));
            assert(rest@ =~= token@.skip(open + 1));
            let digits = trim_end_matches_chars(rest.as_slice(), ']');
            let len: usize = match parse_usize_chars(digits.as_slice()) {
                Some(v) => v,
                None => 1,
            };
            let len = if len == 0 {
                1
            } else {
                len
            };
            (base, len)
        },
        None => (slice_chars(token, 0, token.len()), 1),
    }
}

/// The field declared by one `;`-separated part of a format body, if any:
/// `type name` (trimmed).
pub open spec fn field_of_part(part: Seq<char>) -> Seq<(Seq<char>, Seq<char>)> {
    let p = trim(part);
    if p.len() == 0 {
        seq![]
    } else {
        match split_once(p, ' ') {
            Some((ty, name)) => seq![(trim(ty), trim(name))],
            None => seq![],
        }
    }
}

/// The fields declared by the parts of a format body, in order.
pub open spec fn fields_of_parts(parts: Seq<Seq<char>>) -> Seq<(Seq<char>, Seq<char>)>
    decreases parts.len(),
{
    if parts.len() == 0 {
        seq![]
    } else {
        fields_of_parts(parts.drop_last()) + field_of_part(parts.last())
    }
}

/// An 'F' format payload `name:type field;type field;...` as its message name
/// and `(type token, field name)` list.
pub open spec fn format_of(payload: Seq<u8>) -> Option<(Seq<char>, Seq<(Seq<char>, Seq<char>)>)> {
    match split_once(utf8_lossy(payload), ':') {
        None => None,
        Some((name, body)) => Some((name, fields_of_parts(split(body, ';')))),
    }
}

/// View of a list of `(type token, field name)` pairs.
pub open spec fn pair_views(v: Seq<(Vec<char>, Vec<char>)>) -> Seq<(Seq<char>, Seq<char>)> {
    v.map_values(|p: (Vec<char>, Vec<char>)| (p.0@, p.1@))
}

/// Parse an 'F' format payload: `name:type field;type field;...`.
pub fn parse_format(payload: &[u8]) -> (r: Option<(Vec<char>, Vec<(Vec<char>, Vec<char>)>)>)
    ensures
        match r {
            Some((name, fields)) => format_of(payload@) == Some((name@, pair_views(fields@))),
            None => format_of(payload@) is None,
        },
{
    let s = lossy_chars(payload);
    let (name, body) = match split_once_chars(s.as_slice(), ':') {
        Some(p) => p,
        None => {
            return None;
        },
    };
    let parts = split_chars(body.as_slice(), ';');
    let mut fields: Vec<(Vec<char>, Vec<char>)> = Vec::new();
    let mut i: usize = 0;
    while i < parts.len()
        invariant
            i <= parts@.len(),
            views(parts@) == split(body@, ';'),
            pair_views(fields@) == fields_of_parts(views(parts@).take(i as int)),
        decreases parts@.len() - i,
    {
        let ghost before = pair_views(fields@);
        assert(views(parts@).take(i + 1).drop_last() =~= views(parts@).take(i as int));
        assert(views(parts@)[i as int] == parts@[i as int]@);
        let p = trim_chars(parts[i].as_slice());
        if p.len() > 0 {
            match split_once_chars(p.as_slice(), ' ') {
                Some((ty, fname)) => {
                    let ty = trim_chars(ty.as_slice());
                    let fname = trim_chars(fname.as_slice());
                    fields.push((ty, fname));
                    assert(pair_views(fields@) =~= before + field_of_part(parts@[i as int]@));
                },
                None => {
                    assert(field_of_part(parts@[i as int]@) =~= seq![]);
                    assert(pair_views(fields@) =~= before + field_of_part(parts@[i as int]@));
                },
            }
        } else {
            assert(field_of_part(parts@[i as int]@) =~= seq![]);
            assert(pair_views(fields@) =~= before + field_of_part(parts@[i as int]@));
        }
        i = i + 1;
    }
    assert(views(parts@).take(i as int) =~= views(parts@));
    Some((name, fields))
}

/// Value of an 'I' info message, by its declared type.
pub enum InfoValue {
    /// A `char[N]` value, without trailing NULs.
    Text(String),
    /// An `int32_t` value.
    Int32(i32),
    /// A `uint32_t` value.
    UInt32(u32),
    /// A `float` value, as its IEEE-754 bits.
    Float32(u32),
    /// Any other type: only its size in bytes is reported.
    Bytes(usize),
}

/// Specification-level view of an [`InfoValue`].
pub enum InfoView {
    Text(Seq<char>),
    Int32(i32),
    UInt32(u32),
    Float32(u32),
    Bytes(nat),
}

impl InfoValue {
    /// The value with its text as a character sequence.
    pub open spec fn view(&self) -> InfoView {
        match self {
            InfoValue::Text(s) => InfoView::Text(s@),
            InfoValue::Int32(v) => InfoView::Int32(*v),
            InfoValue::UInt32(v) => InfoView::UInt32(*v),
            InfoValue::Float32(v) => InfoView::Float32(*v),
            InfoValue::Bytes(n) => InfoView::Bytes(*n as nat),
        }
    }
}

/// The value of an info message whose type token is `ty`.
pub open spec fn info_value_of(ty: Seq<char>, vb: Seq<u8>) -> InfoView {
    if starts_with(ty, "char"@) {
        InfoView::Text(trim_end_matches(utf8_lossy(vb), '\0'))
    } else if ty == "int32_t"@ && vb.len() >= 4 {
        InfoView::Int32((le_value(vb.take(4)) as u32) as i32)
    } else if ty == "uint32_t"@ && vb.len() >= 4 {
        InfoView::UInt32(le_value(vb.take(4)) as u32)
    } else if ty == "float"@ && vb.len() >= 4 {
        InfoView::Float32(le_value(vb.take(4)) as u32)
    } else {
        InfoView::Bytes(vb.len())
    }
}

/// An 'I' info payload `keylen(u8) | "type key" | value` as its key and value.
pub open spec fn info_of(payload: Seq<u8>) -> Option<(Seq<char>, InfoView)> {
    if payload.len() == 0 || 1 + payload[0] > payload.len() {
        None
    } else {
        let kl = payload[0] as int;
        let key_field = utf8_lossy(payload.subrange(1, 1 + kl));
        let vb = payload.skip(1 + kl);
        let (ty, key) = match split_once(key_field, ' ') {
            Some(p) => p,
            None => (Seq::<char>::empty(), key_field),
        };
        Some((key, info_value_of(ty, vb)))
    }
}

/// Parse an 'I' info payload: `keylen(u8) | "type key" | value`.
pub fn parse_info(payload: &[u8]) -> (r: Option<(Vec<char>, InfoValue)>)
    ensures
        match r {
            Some((k, v)) => info_of(payload@) == Some((k@, v.view())),
            None => info_of(payload@) is None,
        },
{
    let n = payload.len();
    if n == 0 {
        return None;
    }
    let kl = payload[0] as usize;
    if 1 + kl > n {
        return None;
    }
    let key_field = lossy_chars(slice_subrange(payload, 1, 1 + kl));
    let vb = slice_subrange(payload, 1 + kl, n);
    assert(vb@ =~= payload@.skip(1 + kl));
    let (ty, key) = match split_once_chars(key_field.as_slice(), ' ') {
        Some(p) => p,
        None => (Vec::new(), key_field),
    };
    assert(ty@ =~= (match split_once(utf8_lossy(payload@.subrange(1, 1 + kl as int)), ' ') {
        Some(p) => p,
        None => (Seq::<char>::empty(), utf8_lossy(payload@.subrange(1, 1 + kl as int))),
    }).0);
    let vlen = vb.len();
    let value = if starts_with_chars(ty.as_slice(), chars_of("char").as_slice()) {
        let txt = trim_end_matches_chars(lossy_chars(vb).as_slice(), '\0');
        InfoValue::Text(crate::text::string_of(txt.as_slice()))
    } else if chars_eq(ty.as_slice(), chars_of("int32_t").as_slice()) && vlen >= 4 {
        let v = read_le(vb, 0, 4);
        assert(vb@.subrange(0, 4) =~= vb@.take(4));
        InfoValue::Int32((v as u32) as i32)
    } else if chars_eq(ty.as_slice(), chars_of("uint32_t").as_slice()) && vlen >= 4 {
        let v = read_le(vb, 0, 4);
        assert(vb@.subrange(0, 4) =~= vb@.take(4));
        InfoValue::UInt32(v as u32)
    } else if chars_eq(ty.as_slice(), chars_of("float").as_slice()) && vlen >= 4 {
        let v = read_le(vb, 0, 4);
        assert(vb@.subrange(0, 4) =~= vb@.take(4));
        InfoValue::Float32(v as u32)
    } else {
        InfoValue::Bytes(vlen)
    };
    Some((key, value))
}

/// The message framed at `pos`: its type byte, its payload, and where the
/// next message starts. `None` at the end of the buffer or on truncation.
pub open spec fn frame_at(bytes: Seq<u8>, pos: int) -> Option<(u8, Seq<u8>, int)> {
    if pos < 0 || pos + 3 > bytes.len() {
        None
    } else {
        let size = bytes[pos] as int + 256 * bytes[pos + 1] as int;
        let end = pos + 3 + size;
        if end > bytes.len() {
            None
        } else {
            Some((bytes[pos + 2], bytes.subrange(pos + 3, end), end))
        }
    }
}

/// Read the message framed at `pos`: `(type, payload start, payload end)`.
pub fn next_message(buf: &[u8], pos: usize) -> (r: Option<(u8, usize, usize)>)
    ensures
        match r {
            Some((t, a, b)) => a <= b <= buf@.len() && frame_at(buf@, pos as int) == Some(
                (t, buf@.subrange(a as int, b as int), b as int),
            ),
            None => frame_at(buf@, pos as int) is None,
        },
{
    let n = buf.len();
    if pos > n || n - pos < 3 {
        return None;
    }
    let size: usize = buf[pos] as usize + 256 * (buf[pos + 1] as usize);
    let mtype = buf[pos + 2];
    let start = pos + 3;
    if size > n - start {
        return None;
    }
    let end = start + size;
    Some((mtype, start, end))
}

/// Index of the last entry of `keys` equal to `k`, or -1.
pub open spec fn last_index<K>(keys: Seq<K>, k: K) -> int
    decreases keys.len(),
{
    if keys.len() == 0 {
        -1
    } else if keys.last() == k {
        keys.len() - 1
    } else {
        last_index(keys.drop_last(), k)
    }
}

proof fn lemma_last_index<K>(keys: Seq<K>, k: K)
    ensures
        -1 <= last_index(keys, k) < keys.len(),
        last_index(keys, k) >= 0 ==> keys[last_index(keys, k)] == k,
        last_index(keys, k) == -1 ==> forall|i: int| 0 <= i < keys.len() ==> keys[i] != k,
    decreases keys.len(),
{
    if keys.len() > 0 && keys.last() != k {
        lemma_last_index(keys.drop_last(), k);
        if last_index(keys, k) == -1 {
            assert forall|i: int| 0 <= i < keys.len() implies keys[i] != k by {
                if i < keys.len() - 1 {
                    assert(keys.drop_last()[i] == keys[i]);
                }
            }
        }
    }
}

/// The value stored under `k` in an association list (the last entry wins).
pub open spec fn lookup<K, V>(s: Seq<(K, V)>, k: K) -> Option<V> {
    let i = last_index(s.map_values(|e: (K, V)| e.0), k);
    if i < 0 {
        None
    } else {
        Some(s[i].1)
    }
}

/// Store `v` under `k`: replace the entry for `k`, or append a new one.
pub open spec fn assoc_put<K, V>(s: Seq<(K, V)>, k: K, v: V) -> Seq<(K, V)> {
    let i = last_index(s.map_values(|e: (K, V)| e.0), k);
    if i < 0 {
        s.push((k, v))
    } else {
        s.update(i, (k, v))
    }
}

/// A field of a message layout, with its size resolved.
pub struct FieldLayout {
    pub name: Seq<char>,
    /// `None` for a nested struct (skipped when decoding).
    pub base: Option<Base>,
    pub array_len: nat,
    pub total_size: nat,
}

/// Serialized size of the struct named `name`, looking nested structs up in
/// `formats` to a depth of 16. `None` when a type is unknown, nesting is too
/// deep, or the size does not fit a `usize`.
pub open spec fn struct_size(
    formats: Seq<(Seq<char>, Seq<(Seq<char>, Seq<char>)>)>,
    name: Seq<char>,
    depth: nat,
) -> Option<nat>
    decreases 17 - depth, 1int, 0int,
{
    if depth > 16 {
        None
    } else {
        match lookup(formats, name) {
            None => None,
            Some(raw) => fields_size(formats, raw, depth),
        }
    }
}

/// Total serialized size of a list of `(type token, name)` fields.
pub open spec fn fields_size(
    formats: Seq<(Seq<char>, Seq<(Seq<char>, Seq<char>)>)>,
    raw: Seq<(Seq<char>, Seq<char>)>,
    depth: nat,
) -> Option<nat>
    decreases 17 - depth, 0int, raw.len(),
{
    if depth > 16 {
        None
    } else if raw.len() == 0 {
        Some(0)
    } else {
        match fields_size(formats, raw.drop_last(), depth) {
            None => None,
            Some(t) => {
                let (b, n) = split_array_of(raw.last().0);
                let elem = match base_of(b) {
                    Some(bb) => Some(base_size(bb)),
                    None => struct_size(formats, b, depth + 1),
                };
                match elem {
                    None => None,
                    Some(e) => if t + e * n > usize::MAX {
                        None
                    } else {
                        Some(t + e * n)
                    },
                }
            },
        }
    }
}

/// The layout of one declared field.
pub open spec fn layout_of_field(
    formats: Seq<(Seq<char>, Seq<(Seq<char>, Seq<char>)>)>,
    raw: (Seq<char>, Seq<char>),
) -> Option<FieldLayout> {
    let (b, n) = split_array_of(raw.0);
    match base_of(b) {
        Some(bb) => if base_size(bb) * n > usize::MAX {
            None
        } else {
            Some(FieldLayout { name: raw.1, base: Some(bb), array_len: n, total_size: base_size(bb) * n })
        },
        None => match struct_size(formats, b, 0) {
            None => None,
            Some(sz) => if sz * n > usize::MAX {
                None
            } else {
                Some(FieldLayout { name: raw.1, base: None, array_len: n, total_size: sz * n })
            },
        },
    }
}

/// The layout of a list of declared fields; `None` if any field fails.
pub open spec fn layout_of(
    formats: Seq<(Seq<char>, Seq<(Seq<char>, Seq<char>)>)>,
    raw: Seq<(Seq<char>, Seq<char>)>,
) -> Option<Seq<FieldLayout>>
    decreases raw.len(),
{
    if raw.len() == 0 {
        Some(seq![])
    } else {
        match layout_of(formats, raw.drop_last()) {
            None => None,
            Some(prev) => match layout_of_field(formats, raw.last()) {
                None => None,
                Some(f) => Some(prev.push(f)),
            },
        }
    }
}

/// View of a list of message formats.
pub open spec fn formats_view(v: Seq<(Vec<char>, Vec<(Vec<char>, Vec<char>)>)>) -> Seq<
    (Seq<char>, Seq<(Seq<char>, Seq<char>)>),
> {
    v.map_values(|e: (Vec<char>, Vec<(Vec<char>, Vec<char>)>)| (e.0@, pair_views(e.1@)))
}

/// Keys of an association list with character-vector keys.
pub open spec fn char_keys<V>(v: Seq<(Vec<char>, V)>) -> Seq<Seq<char>> {
    v.map_values(|e: (Vec<char>, V)| e.0@)
}

/// Position of the last entry whose key is `k`.
pub fn find_last_key<V>(v: &Vec<(Vec<char>, V)>, k: &[char]) -> (r: Option<usize>)
    ensures
        match r {
            Some(i) => i as int == last_index(char_keys(v@), k@) && i < v@.len(),
            None => last_index(char_keys(v@), k@) == -1,
        },
{
    let mut j: usize = v.len();
    assert(char_keys(v@).take(v@.len() as int) =~= char_keys(v@));
    while j > 0
        invariant
            j <= v@.len(),
            last_index(char_keys(v@).take(j as int), k@) == last_index(char_keys(v@), k@),
        decreases j,
    {
        assert(char_keys(v@).take(j as int).drop_last() =~= char_keys(v@).take(j - 1));
        assert(char_keys(v@).take(j as int).last() == v@[j - 1].0@);
        if chars_eq(v[j - 1].0.as_slice(), k) {
            return Some(j - 1);
        }
        j = j - 1;
    }
    assert(char_keys(v@).take(0) =~= Seq::<Seq<char>>::empty());
    None
}

proof fn lemma_formats_keys(v: Seq<(Vec<char>, Vec<(Vec<char>, Vec<char>)>)>)
    ensures
        formats_view(v).map_values(|e: (Seq<char>, Seq<(Seq<char>, Seq<char>)>)| e.0) == char_keys(v),
{
    assert(formats_view(v).map_values(|e: (Seq<char>, Seq<(Seq<char>, Seq<char>)>)| e.0)
        =~= char_keys(v));
}

/// Executable [`struct_size`].
pub fn struct_size_of(
    formats: &Vec<(Vec<char>, Vec<(Vec<char>, Vec<char>)>)>,
    name: &[char],
    depth: u8,
) -> (r: Option<usize>)
    ensures
        match r {
            Some(n) => struct_size(formats_view(formats@), name@, depth as nat) == Some(n as nat),
            None => struct_size(formats_view(formats@), name@, depth as nat) is None,
        },
    decreases 17 - depth, 1int, 0int,
{
    if depth > 16 {
        return None;
    }
    proof {
        lemma_formats_keys(formats@);
    }
    match find_last_key(formats, name) {
        None => None,
        Some(i) => fields_size_of(formats, &formats[i].1, depth),
    }
}

/// Executable [`fields_size`].
pub fn fields_size_of(
    formats: &Vec<(Vec<char>, Vec<(Vec<char>, Vec<char>)>)>,
    raw: &Vec<(Vec<char>, Vec<char>)>,
    depth: u8,
) -> (r: Option<usize>)
    ensures
        match r {
            Some(n) => fields_size(formats_view(formats@), pair_views(raw@), depth as nat) == Some(
                n as nat,
            ),
            None => fields_size(formats_view(formats@), pair_views(raw@), depth as nat) is None,
        },
    decreases 17 - depth, 0int, raw@.len(),
{
    if depth > 16 {
        return None;
    }
    let ghost fv = formats_view(formats@);
    let mut total: usize = 0;
    let mut i: usize = 0;
    while i < raw.len()
        invariant
            depth <= 16,
            fv == formats_view(formats@),
            i <= raw@.len(),
            fields_size(fv, pair_views(raw@).take(i as int), depth as nat) == Some(total as nat),
        decreases raw@.len() - i,
    {
        let ghost pv = pair_views(raw@);
        assert(pv.take(i + 1).drop_last() =~= pv.take(i as int));
        assert(pv.take(i + 1).last() == (raw@[i as int].0@, raw@[i as int].1@));
        let (b, n) = split_array(raw[i].0.as_slice());
        let elem: usize = match Base::from_str(b.as_slice()) {
            Some(bb) => bb.size(),
            None => match struct_size_of(formats, b.as_slice(), depth + 1) {
                Some(e) => e,
                None => {
                    assert(fields_size(fv, pv.take(i + 1), depth as nat) is None);
                    proof {
                        lemma_fields_size_none_prefix(fv, pv, depth as nat, i + 1);
                    }
                    assert(pv.take(raw@.len() as int) =~= pv);
                    return None;
                },
            },
        };
        let step: Option<usize> = match elem.checked_mul(n) {
            Some(m) => total.checked_add(m),
            None => None,
        };
        match step {
            Some(t) => {
                total = t;
            },
            None => {
                proof {
                    assert(fields_size(fv, pv.take(i + 1), depth as nat) is None) by {
                        if elem as nat * n as nat <= usize::MAX {
                        } else {
                            assert(total as nat + elem as nat * n as nat > usize::MAX) by (nonlinear_arith)
                                requires elem as nat * n as nat > usize::MAX;
                        }
                    }
                    lemma_fields_size_none_prefix(fv, pv, depth as nat, i + 1);
                }
                assert(pv.take(raw@.len() as int) =~= pv);
                return None;
            },
        }
        i = i + 1;
    }
    assert(pair_views(raw@).take(i as int) =~= pair_views(raw@));
    Some(total)
}

proof fn lemma_fields_size_none_prefix(
    formats: Seq<(Seq<char>, Seq<(Seq<char>, Seq<char>)>)>,
    raw: Seq<(Seq<char>, Seq<char>)>,
    depth: nat,
    k: int,
)
    requires
        0 <= k <= raw.len(),
        fields_size(formats, raw.take(k), depth) is None,
    ensures
        fields_size(formats, raw, depth) is None,
    decreases raw.len() - k,
{
    if k < raw.len() {
        assert(raw.take(k + 1).drop_last() =~= raw.take(k));
        lemma_fields_size_none_prefix(formats, raw, depth, k + 1);
    } else {
        assert(raw.take(k) =~= raw);
    }
}


/// Storing into a mapped association list is mapping the stored list.
proof fn lemma_put_mapped<A, K, W>(
    s: Seq<A>,
    key: spec_fn(A) -> K,
    view: spec_fn(A) -> (K, W),
    a: A,
)
    requires
        forall|x: A| #[trigger] view(x).0 == key(x),
    ensures
        ({
            let i = last_index(s.map_values(key), key(a));
            assoc_put(s.map_values(view), key(a), view(a).1) == (if i < 0 {
                s.push(a)
            } else {
                s.update(i, a)
            }).map_values(view)
        }),
        lookup(s.map_values(view), key(a)) == (if last_index(s.map_values(key), key(a)) < 0 {
            None
        } else {
            Some(view(s[last_index(s.map_values(key), key(a))]).1)
        }),
{
    let vs = s.map_values(view);
    assert(vs.map_values(|e: (K, W)| e.0) =~= s.map_values(key));
    let i = last_index(s.map_values(key), key(a));
    lemma_last_index(s.map_values(key), key(a));
    assert(view(a) == (key(a), view(a).1));
    if i < 0 {
        assert(vs.push((key(a), view(a).1)) =~= s.push(a).map_values(view));
    } else {
        assert(vs.update(i, (key(a), view(a).1)) =~= s.update(i, a).map_values(view));
    }
}

/// Store `val` under `k` in a list keyed by character vectors: the entry
/// for `k` is replaced, or a new one is appended.
fn put_keyed<V>(v: &mut Vec<(Vec<char>, V)>, k: Vec<char>, val: V)
    ensures
        ({
            let i = last_index(char_keys(old(v)@), k@);
            final(v)@ == if i < 0 {
                old(v)@.push((k, val))
            } else {
                old(v)@.update(i, (k, val))
            }
        }),
{
    match find_last_key(v, k.as_slice()) {
        Some(i) => {
            v.set(i, (k, val));
        },
        None => {
            v.push((k, val));
        },
    }
}

/// A message field with its size resolved.
pub struct ResolvedField {
    pub name: Vec<char>,
    /// `None` for a nested struct (skipped when decoding).
    pub base: Option<Base>,
    pub array_len: usize,
    pub total_size: usize,
}

impl ResolvedField {
    /// The field as a [`FieldLayout`].
    pub open spec fn view(&self) -> FieldLayout {
        FieldLayout {
            name: self.name@,
            base: self.base,
            array_len: self.array_len as nat,
            total_size: self.total_size as nat,
        }
    }
}

/// View of a list of resolved fields.
pub open spec fn fields_view(v: Seq<ResolvedField>) -> Seq<FieldLayout> {
    v.map_values(|f: ResolvedField| f.view())
}

/// View of a cache of resolved layouts.
pub open spec fn layouts_view(v: Seq<(Vec<char>, Vec<ResolvedField>)>) -> Seq<
    (Seq<char>, Seq<FieldLayout>),
> {
    v.map_values(|e: (Vec<char>, Vec<ResolvedField>)| (e.0@, fields_view(e.1@)))
}

/// Executable [`layout_of_field`].
fn resolve_field(
    formats: &Vec<(Vec<char>, Vec<(Vec<char>, Vec<char>)>)>,
    ty: &[char],
    name: &[char],
) -> (r: Option<ResolvedField>)
    ensures
        match r {
            Some(f) => layout_of_field(formats_view(formats@), (ty@, name@)) == Some(f.view()),
            None => layout_of_field(formats_view(formats@), (ty@, name@)) is None,
        },
{
    let (b, n) = split_array(ty);
    let fname = slice_chars(name, 0, name.len());
    assert(fname@ =~= name@);
    match Base::from_str(b.as_slice()) {
        Some(bb) => {
            let sz = bb.size();
            match sz.checked_mul(n) {
                Some(t) => Some(ResolvedField { name: fname, base: Some(bb), array_len: n, total_size: t }),
                None => None,
            }
        },
        None => match struct_size_of(formats, b.as_slice(), 0) {
            None => None,
            Some(sz) => match sz.checked_mul(n) {
                Some(t) => Some(ResolvedField { name: fname, base: None, array_len: n, total_size: t }),
                None => None,
            },
        },
    }
}

/// Executable [`layout_of`].
fn resolve_fields(
    formats: &Vec<(Vec<char>, Vec<(Vec<char>, Vec<char>)>)>,
    raw: &Vec<(Vec<char>, Vec<char>)>,
) -> (r: Option<Vec<ResolvedField>>)
    ensures
        match r {
            Some(fs) => layout_of(formats_view(formats@), pair_views(raw@)) == Some(fields_view(fs@)),
            None => layout_of(formats_view(formats@), pair_views(raw@)) is None,
        },
{
    let ghost fv = formats_view(formats@);
    let ghost pv = pair_views(raw@);
    let mut out: Vec<ResolvedField> = Vec::new();
    let mut i: usize = 0;
    while i < raw.len()
        invariant
            fv == formats_view(formats@),
            pv == pair_views(raw@),
            i <= raw@.len(),
            layout_of(fv, pv.take(i as int)) == Some(fields_view(out@)),
        decreases raw@.len() - i,
    {
        assert(pv.take(i + 1).drop_last() =~= pv.take(i as int));
        assert(pv.take(i + 1).last() == (raw@[i as int].0@, raw@[i as int].1@));
        match resolve_field(formats, raw[i].0.as_slice(), raw[i].1.as_slice()) {
            Some(f) => {
                let ghost before = out@;
                out.push(f);
                assert(fields_view(out@) =~= fields_view(before).push(f.view()));
            },
            None => {
                proof {
                    lemma_layout_none_prefix(fv, pv, i + 1);
                }
                return None;
            },
        }
        i = i + 1;
    }
    assert(pv.take(i as int) =~= pv);
    Some(out)
}


proof fn lemma_layout_none_prefix(
    formats: Seq<(Seq<char>, Seq<(Seq<char>, Seq<char>)>)>,
    raw: Seq<(Seq<char>, Seq<char>)>,
    k: int,
)
    requires
        0 <= k <= raw.len(),
        layout_of(formats, raw.take(k)) is None,
    ensures
        layout_of(formats, raw) is None,
    decreases raw.len() - k,
{
    if k < raw.len() {
        assert(raw.take(k + 1).drop_last() =~= raw.take(k));
        lemma_layout_none_prefix(formats, raw, k + 1);
    } else {
        assert(raw.take(k) =~= raw);
    }
}


/// A decoded value: the raw little-endian bits of one element of a field,
/// the field's base type, and the time of its record in microseconds.
#[derive(Clone, Copy, PartialEq, Eq, Debug, Structural)]
pub struct Sample {
    pub t_us: u64,
    pub base: Base,
    pub bits: u64,
}

/// Series name of a scalar field: `message[instance].field`.
pub open spec fn series_key(msg: Seq<char>, multi: u8, name: Seq<char>) -> Seq<char> {
    msg + seq!['['] + decimal(multi as nat) + seq![']', '.'] + name
}

/// Series name of an array element: `message[instance].field[i]`.
pub open spec fn element_key(msg: Seq<char>, multi: u8, name: Seq<char>, i: nat) -> Seq<char> {
    series_key(msg, multi, name) + seq!['['] + decimal(i) + seq![']']
}

/// The record's `uint64_t timestamp` field.
pub open spec fn is_timestamp(f: FieldLayout) -> bool {
    f.name == "timestamp"@ && f.base == Some(Base::U64) && f.array_len == 1
}

/// The named values a (non-timestamp, non-padding) field contributes, read
/// from its bytes: one value for a scalar, one per element for an array,
/// none for `char` and nested structs.
pub open spec fn field_values(msg: Seq<char>, multi: u8, f: FieldLayout, bytes: Seq<u8>) -> Seq<
    (Seq<char>, Base, u64),
> {
    match f.base {
        None => seq![],
        Some(b) => if b == Base::Char {
            seq![]
        } else if f.array_len == 1 {
            seq![(series_key(msg, multi, f.name), b, le_value(bytes.take(base_size(b) as int)) as u64)]
        } else {
            Seq::new(
                f.array_len,
                |i: int|
                    (
                        element_key(msg, multi, f.name, i as nat),
                        b,
                        le_value(bytes.subrange(i * base_size(b), (i + 1) * base_size(b))) as u64,
                    ),
            )
        },
    }
}

/// What scanning the fields of a record yields: the record timestamp (if
/// any), the named values in field order, and the offset after the fields.
pub struct RecordScan {
    pub ts: Option<u64>,
    pub values: Seq<(Seq<char>, Base, u64)>,
    pub end: nat,
}

/// Scan a data record against its layout; `None` when the record is too
/// short for its fields.
pub open spec fn scan_record(msg: Seq<char>, multi: u8, fields: Seq<FieldLayout>, data: Seq<u8>) -> Option<RecordScan>
    decreases fields.len(),
{
    if fields.len() == 0 {
        Some(RecordScan { ts: None, values: seq![], end: 0 })
    } else {
        match scan_record(msg, multi, fields.drop_last(), data) {
            None => None,
            Some(r) => {
                let f = fields.last();
                let end = r.end + f.total_size;
                if end > data.len() {
                    None
                } else {
                    let bytes = data.subrange(r.end as int, end as int);
                    if is_timestamp(f) {
                        Some(RecordScan { ts: Some(le_value(bytes.take(8)) as u64), values: r.values, end })
                    } else if starts_with(f.name, "_padding"@) {
                        Some(RecordScan { ts: r.ts, values: r.values, end })
                    } else {
                        Some(RecordScan { ts: r.ts, values: r.values + field_values(msg, multi, f, bytes), end })
                    }
                }
            },
        }
    }
}

/// A field layout as resolution makes it: a base-typed field takes its
/// base size times its length, and a length is at least one.
pub open spec fn layout_wf(f: FieldLayout) -> bool {
    &&& f.array_len >= 1
    &&& (f.base matches Some(b) ==> f.total_size == base_size(b) * f.array_len)
}

proof fn lemma_layout_of_wf(
    formats: Seq<(Seq<char>, Seq<(Seq<char>, Seq<char>)>)>,
    raw: Seq<(Seq<char>, Seq<char>)>,
)
    requires
        layout_of(formats, raw) is Some,
    ensures
        forall|i: int| 0 <= i < raw.len() ==> #[trigger] layout_wf(layout_of(formats, raw)->0[i]),
        layout_of(formats, raw)->0.len() == raw.len(),
    decreases raw.len(),
{
    if raw.len() > 0 {
        lemma_layout_of_wf(formats, raw.drop_last());
        let prev = layout_of(formats, raw.drop_last())->0;
        let f = layout_of_field(formats, raw.last())->0;
        assert(layout_wf(f));
        assert forall|i: int| 0 <= i < raw.len() implies #[trigger] layout_wf(layout_of(formats, raw)->0[i]) by {
            if i < raw.len() - 1 {
                assert(layout_wf(prev[i]));
            }
        }
    }
}


/// View of a list of named values.
pub open spec fn value_views(v: Seq<(Vec<char>, Base, u64)>) -> Seq<(Seq<char>, Base, u64)> {
    v.map_values(|e: (Vec<char>, Base, u64)| (e.0@, e.1, e.2))
}

/// Executable [`series_key`].
fn series_key_chars(msg: &[char], multi: u8, name: &[char]) -> (k: Vec<char>)
    ensures
        k@ == series_key(msg@, multi, name@),
{
    let mut k: Vec<char> = Vec::new();
    push_chars(&mut k, msg);
    k.push('[');
    push_decimal(&mut k, multi as u64);
    k.push(']');
    k.push('.');
    push_chars(&mut k, name);
    assert(k@ =~= series_key(msg@, multi, name@));
    k
}

/// Executable [`element_key`].
fn element_key_chars(msg: &[char], multi: u8, name: &[char], i: usize) -> (k: Vec<char>)
    ensures
        k@ == element_key(msg@, multi, name@, i as nat),
{
    let mut k = series_key_chars(msg, multi, name);
    k.push('[');
    push_decimal(&mut k, i as u64);
    k.push(']');
    assert(k@ =~= element_key(msg@, multi, name@, i as nat));
    k
}

/// Append the values of one field (see [`field_values`]), whose bytes start
/// at `off` in `data`.
fn push_field_values(
    vals: &mut Vec<(Vec<char>, Base, u64)>,
    msg: &[char],
    multi: u8,
    f: &ResolvedField,
    data: &[u8],
    off: usize,
)
    requires
        layout_wf(f.view()),
        off + f.total_size <= data@.len(),
    ensures
        value_views(final(vals)@) == value_views(old(vals)@) + field_values(
            msg@,
            multi,
            f.view(),
            data@.subrange(off as int, off + f.total_size),
        ),
{
    let ghost bytes = data@.subrange(off as int, off + f.total_size);
    let ghost fvals = field_values(msg@, multi, f.view(), bytes);
    match f.base {
        None => {
            assert(value_views(vals@) =~= value_views(vals@) + fvals);
        },
        Some(b) => {
            let is_char = match b {
                Base::Char => true,
                _ => false,
            };
            if is_char {
                assert(value_views(vals@) =~= value_views(vals@) + fvals);
            } else if f.array_len == 1 {
                let es = b.size();
                assert(f.total_size == es) by (nonlinear_arith)
                    requires
                        f.total_size == es * f.array_len,
                        f.array_len == 1,
                ;
                let v = read_le(data, off, es);
                assert(bytes.take(es as int) =~= data@.subrange(off as int, off + es));
                proof {
                    lemma_le_value_bound(data@.subrange(off as int, off + es));
                    lemma_pow256_mono(es as nat, 8);
                    assert(pow256(8) == 0x1_0000_0000_0000_0000) by {
                        reveal_with_fuel(pow256, 9);
                    }
                }
                let key = series_key_chars(msg, multi, f.name.as_slice());
                let ghost before = vals@;
                vals.push((key, b, v));
                assert(value_views(vals@) =~= value_views(before) + fvals);
            } else {
                let es = b.size();
                let n = f.array_len;
                let ghost before = value_views(vals@);
                let dlen = data.len();
                let mut j: usize = 0;
                proof {
                    assert(pow256(8) == 0x1_0000_0000_0000_0000) by {
                        reveal_with_fuel(pow256, 9);
                    }
                }
                while j < n
                    invariant
                        j <= n == f.array_len,
                        es == base_size(b),
                        1 <= es <= 8,
                        f.total_size == es * n,
                        off + f.total_size <= data@.len(),
                        dlen == data@.len(),
                        bytes == data@.subrange(off as int, off + f.total_size),
                        fvals =~= Seq::new(
                            n as nat,
                            |i: int|
                                (
                                    element_key(msg@, multi, f.name@, i as nat),
                                    b,
                                    le_value(bytes.subrange(i * es, (i + 1) * es)) as u64,
                                ),
                        ),
                        value_views(vals@) == before + fvals.take(j as int),
                        pow256(8) == 0x1_0000_0000_0000_0000,
                    decreases n - j,
                {
                    assert((j + 1) * es <= es * n && j * es + es == (j + 1) * es && j * es <= es * n) by (nonlinear_arith)
                        requires
                            j < n,
                            es >= 1,
                    ;
                    assert(j * es <= f.total_size);
                    let m: usize = j * es;
                    let lo: usize = off + m;
                    let v = read_le(data, lo, es);
                    assert(bytes.subrange(j * es, (j + 1) * es) =~= data@.subrange(lo as int, lo + es));
                    proof {
                        lemma_le_value_bound(data@.subrange(lo as int, lo + es));
                        lemma_pow256_mono(es as nat, 8);
                    }
                    let key = element_key_chars(msg, multi, f.name.as_slice(), j);
                    let ghost prev = vals@;
                    vals.push((key, b, v));
                    assert(value_views(vals@) =~= value_views(prev).push(fvals[j as int]));
                    assert(fvals.take(j + 1) =~= fvals.take(j as int).push(fvals[j as int]));
                    j = j + 1;
                }
                assert(fvals.take(n as int) =~= fvals);
            }
        },
    }
}


proof fn lemma_scan_none_prefix(msg: Seq<char>, multi: u8, fields: Seq<FieldLayout>, data: Seq<u8>, k: int)
    requires
        0 <= k <= fields.len(),
        scan_record(msg, multi, fields.take(k), data) is None,
    ensures
        scan_record(msg, multi, fields, data) is None,
    decreases fields.len() - k,
{
    if k < fields.len() {
        assert(fields.take(k + 1).drop_last() =~= fields.take(k));
        lemma_scan_none_prefix(msg, multi, fields, data, k + 1);
    } else {
        assert(fields.take(k) =~= fields);
    }
}

/// Executable [`scan_record`]: the record timestamp and the named values.
fn scan_fields(msg: &[char], multi: u8, fields: &Vec<ResolvedField>, data: &[u8]) -> (r: Option<
    (Option<u64>, Vec<(Vec<char>, Base, u64)>),
>)
    requires
        forall|i: int| 0 <= i < fields@.len() ==> #[trigger] layout_wf(fields@[i].view()),
    ensures
        match r {
            Some((ts, vals)) => scan_record(msg@, multi, fields_view(fields@), data@) == Some(
                RecordScan { ts, values: value_views(vals@), end: scan_record(msg@, multi, fields_view(fields@), data@)->0.end },
            ),
            None => scan_record(msg@, multi, fields_view(fields@), data@) is None,
        },
{
    let ghost fv = fields_view(fields@);
    let dlen = data.len();
    let mut off: usize = 0;
    let mut ts: Option<u64> = None;
    let mut vals: Vec<(Vec<char>, Base, u64)> = Vec::new();
    let mut i: usize = 0;
    let ts_name = chars_of("timestamp");
    let pad_name = chars_of("_padding");
    proof {
        assert(pow256(8) == 0x1_0000_0000_0000_0000) by {
            reveal_with_fuel(pow256, 9);
        }
        assert(fv.take(0) =~= Seq::<FieldLayout>::empty());
        assert(value_views(vals@) =~= Seq::<(Seq<char>, Base, u64)>::empty());
    }
    while i < fields.len()
        invariant
            fv == fields_view(fields@),
            forall|k: int| 0 <= k < fields@.len() ==> #[trigger] layout_wf(fields@[k].view()),
            i <= fields@.len(),
            off <= dlen == data@.len(),
            ts_name@ == "timestamp"@,
            pad_name@ == "_padding"@,
            scan_record(msg@, multi, fv.take(i as int), data@) == Some(
                RecordScan { ts, values: value_views(vals@), end: off as nat },
            ),
            pow256(8) == 0x1_0000_0000_0000_0000,
        decreases fields@.len() - i,
    {
        assert(fv.take(i + 1).drop_last() =~= fv.take(i as int));
        assert(fv.take(i + 1).last() == fields@[i as int].view());
        let f = &fields[i];
        assert(layout_wf(f.view()));
        if f.total_size > dlen - off {
            proof {
                lemma_scan_none_prefix(msg@, multi, fv, data@, i + 1);
            }
            return None;
        }
        let end = off + f.total_size;
        let is_u64 = match f.base {
            Some(Base::U64) => true,
            _ => false,
        };
        if chars_eq(f.name.as_slice(), ts_name.as_slice()) && is_u64 && f.array_len == 1 {
            assert(f.total_size == 8) by (nonlinear_arith)
                requires
                    f.total_size == 8 * f.array_len,
                    f.array_len == 1,
            ;
            let v = read_le(data, off, 8);
            assert(data@.subrange(off as int, end as int).take(8) =~= data@.subrange(off as int, off + 8));
            ts = Some(v);
        } else if starts_with_chars(f.name.as_slice(), pad_name.as_slice()) {
        } else {
            push_field_values(&mut vals, msg, multi, f, data, off);
        }
        off = end;
        i = i + 1;
    }
    assert(fv.take(i as int) =~= fv);
    Some((ts, vals))
}


/// Everything read from a log so far.
pub struct ParseState {
    /// Message formats by name ('F').
    pub formats: Seq<(Seq<char>, Seq<(Seq<char>, Seq<char>)>)>,
    /// Field layouts resolved so far, by message name (resolved once, on
    /// the first data record of the message).
    pub layouts: Seq<(Seq<char>, Seq<FieldLayout>)>,
    /// Subscriptions by message id ('A'): message name and instance.
    pub subs: Seq<(u16, (Seq<char>, u8))>,
    /// Info values by key ('I').
    pub info: Seq<(Seq<char>, InfoView)>,
    /// Samples by series name, in arrival order ('D').
    pub series: Seq<(Seq<char>, Seq<Sample>)>,
    /// Logged strings ('L'): time, level, text.
    pub messages: Seq<(u64, u8, Seq<char>)>,
    /// Smallest non-zero timestamp seen.
    pub min_ts: Option<u64>,
}

/// The state before any message is read.
pub open spec fn empty_state() -> ParseState {
    ParseState {
        formats: seq![],
        layouts: seq![],
        subs: seq![],
        info: seq![],
        series: seq![],
        messages: seq![],
        min_ts: None,
    }
}

/// The smallest non-zero timestamp, after seeing `ts` (a zero is ignored).
pub open spec fn track_min(m: Option<u64>, ts: u64) -> Option<u64> {
    if ts == 0 {
        m
    } else {
        match m {
            None => Some(ts),
            Some(x) => Some(if ts < x {
                ts
            } else {
                x
            }),
        }
    }
}

/// Append a sample to the series named `key`, creating the series if new.
pub open spec fn push_sample(series: Seq<(Seq<char>, Seq<Sample>)>, key: Seq<char>, s: Sample) -> Seq<
    (Seq<char>, Seq<Sample>),
> {
    match lookup(series, key) {
        None => assoc_put(series, key, seq![s]),
        Some(v) => assoc_put(series, key, v.push(s)),
    }
}

/// Append each named value, in order, as a sample at time `t`.
pub open spec fn push_values(
    series: Seq<(Seq<char>, Seq<Sample>)>,
    values: Seq<(Seq<char>, Base, u64)>,
    t: u64,
) -> Seq<(Seq<char>, Seq<Sample>)>
    decreases values.len(),
{
    if values.len() == 0 {
        series
    } else {
        let v = values.last();
        push_sample(push_values(series, values.drop_last(), t), v.0, Sample { t_us: t, base: v.1, bits: v.2 })
    }
}

/// Little-endian `u16` from two bytes.
pub open spec fn le16(lo: u8, hi: u8) -> u16 {
    (lo as int + 256 * hi as int) as u16
}

/// The layout of message `msg`: the cached one, or one resolved now from the
/// known formats (and then cached). `None` when it cannot be resolved.
pub open spec fn resolve_layout(st: ParseState, msg: Seq<char>) -> (ParseState, Option<Seq<FieldLayout>>) {
    match lookup(st.layouts, msg) {
        Some(l) => (st, Some(l)),
        None => match lookup(st.formats, msg) {
            None => (st, None),
            Some(raw) => match layout_of(st.formats, raw) {
                None => (st, None),
                Some(l) => (ParseState { layouts: assoc_put(st.layouts, msg, l), ..st }, Some(l)),
            },
        },
    }
}

/// Record the values of a data record. A truncated record, or one without
/// a timestamp, changes nothing.
pub open spec fn apply_record(
    st: ParseState,
    msg: Seq<char>,
    multi: u8,
    layout: Seq<FieldLayout>,
    data: Seq<u8>,
) -> ParseState {
    match scan_record(msg, multi, layout, data) {
        Some(r) => match r.ts {
            Some(ts) => ParseState {
                min_ts: track_min(st.min_ts, ts),
                series: push_values(st.series, r.values, ts),
                ..st
            },
            None => st,
        },
        None => st,
    }
}

/// The effect of one message of type `t` with payload `p`. Types other than
/// 'F', 'I', 'A', 'D' and 'L' are ignored, as are malformed payloads.
pub open spec fn step(st: ParseState, t: u8, p: Seq<u8>) -> ParseState {
    if t == 0x46 {
        match format_of(p) {
            Some((n, f)) => ParseState { formats: assoc_put(st.formats, n, f), ..st },
            None => st,
        }
    } else if t == 0x49 {
        match info_of(p) {
            Some((k, v)) => ParseState { info: assoc_put(st.info, k, v), ..st },
            None => st,
        }
    } else if t == 0x41 {
        if p.len() >= 3 {
            ParseState { subs: assoc_put(st.subs, le16(p[1], p[2]), (utf8_lossy(p.skip(3)), p[0])), ..st }
        } else {
            st
        }
    } else if t == 0x44 {
        if p.len() < 2 {
            st
        } else {
            match lookup(st.subs, le16(p[0], p[1])) {
                None => st,
                Some((msg, multi)) => {
                    let (st2, l) = resolve_layout(st, msg);
                    match l {
                        None => st2,
                        Some(layout) => apply_record(st2, msg, multi, layout, p.skip(2)),
                    }
                },
            }
        }
    } else if t == 0x4c {
        if p.len() >= 9 {
            let ts = le_value(p.subrange(1, 9)) as u64;
            ParseState {
                min_ts: track_min(st.min_ts, ts),
                messages: st.messages.push((ts, p[0], utf8_lossy(p.skip(9)))),
                ..st
            }
        } else {
            st
        }
    } else {
        st
    }
}

/// Read the messages framed from `pos` to the end of `bytes` (or to the
/// first truncated one), starting from `st`.
pub open spec fn run(bytes: Seq<u8>, pos: int, st: ParseState) -> ParseState
    decreases bytes.len() - pos,
{
    match frame_at(bytes, pos) {
        None => st,
        Some((t, p, end)) => run(bytes, end, step(st, t, p)),
    }
}

/// Whether `bytes` starts like a ULog file: at least the 16-byte header,
/// beginning with the magic.
pub open spec fn has_ulog_header(bytes: Seq<u8>) -> bool {
    bytes.len() >= 16 && bytes.take(7) == magic()
}


/// A logged string ('L' message).
pub struct RawMessage {
    /// Time in microseconds.
    pub t_us: u64,
    pub level: u8,
    pub text: String,
}

/// View of subscriptions.
pub open spec fn subs_view(v: Seq<(u16, (Vec<char>, u8))>) -> Seq<(u16, (Seq<char>, u8))> {
    v.map_values(|e: (u16, (Vec<char>, u8))| (e.0, (e.1.0@, e.1.1)))
}

/// View of info values.
pub open spec fn infos_view(v: Seq<(Vec<char>, InfoValue)>) -> Seq<(Seq<char>, InfoView)> {
    v.map_values(|e: (Vec<char>, InfoValue)| (e.0@, e.1.view()))
}

/// View of series.
pub open spec fn series_view(v: Seq<(Vec<char>, Vec<Sample>)>) -> Seq<(Seq<char>, Seq<Sample>)> {
    v.map_values(|e: (Vec<char>, Vec<Sample>)| (e.0@, e.1@))
}

/// View of logged strings.
pub open spec fn messages_view(v: Seq<RawMessage>) -> Seq<(u64, u8, Seq<char>)> {
    v.map_values(|m: RawMessage| (m.t_us, m.level, m.text@))
}

/// The reader's state while walking a log.
struct Reader {
    formats: Vec<(Vec<char>, Vec<(Vec<char>, Vec<char>)>)>,
    layouts: Vec<(Vec<char>, Vec<ResolvedField>)>,
    subs: Vec<(u16, (Vec<char>, u8))>,
    info: Vec<(Vec<char>, InfoValue)>,
    series: Vec<(Vec<char>, Vec<Sample>)>,
    messages: Vec<RawMessage>,
    min_ts: Option<u64>,
}

impl Reader {
    spec fn view(&self) -> ParseState {
        ParseState {
            formats: formats_view(self.formats@),
            layouts: layouts_view(self.layouts@),
            subs: subs_view(self.subs@),
            info: infos_view(self.info@),
            series: series_view(self.series@),
            messages: messages_view(self.messages@),
            min_ts: self.min_ts,
        }
    }

    /// Every cached layout is well formed.
    spec fn wf(&self) -> bool {
        forall|i: int, j: int|
            0 <= i < self.layouts@.len() && 0 <= j < self.layouts@[i].1@.len() ==> #[trigger] layout_wf(
                self.layouts@[i].1@[j].view(),
            )
    }
}

/// Executable [`track_min`].
fn track_min_exec(m: Option<u64>, ts: u64) -> (r: Option<u64>)
    ensures
        r == track_min(m, ts),
{
    if ts == 0 {
        m
    } else {
        match m {
            None => Some(ts),
            Some(x) => Some(if ts < x {
                ts
            } else {
                x
            }),
        }
    }
}

/// Position of the last subscription for `id`.
fn find_sub(v: &Vec<(u16, (Vec<char>, u8))>, id: u16) -> (r: Option<usize>)
    ensures
        ({
            let keys = v@.map_values(|e: (u16, (Vec<char>, u8))| e.0);
            match r {
                Some(i) => i as int == last_index(keys, id) && i < v@.len(),
                None => last_index(keys, id) == -1,
            }
        }),
{
    let ghost keys = v@.map_values(|e: (u16, (Vec<char>, u8))| e.0);
    let mut j: usize = v.len();
    assert(keys.take(v@.len() as int) =~= keys);
    while j > 0
        invariant
            j <= v@.len(),
            keys == v@.map_values(|e: (u16, (Vec<char>, u8))| e.0),
            last_index(keys.take(j as int), id) == last_index(keys, id),
        decreases j,
    {
        assert(keys.take(j as int).drop_last() =~= keys.take(j - 1));
        if v[j - 1].0 == id {
            return Some(j - 1);
        }
        j = j - 1;
    }
    assert(keys.take(0) =~= Seq::<u16>::empty());
    None
}

/// Append `s` to the series named `key`.
fn push_sample_exec(series: &mut Vec<(Vec<char>, Vec<Sample>)>, key: Vec<char>, s: Sample)
    ensures
        series_view(final(series)@) == push_sample(series_view(old(series)@), key@, s),
{
    let ghost keyf = |e: (Vec<char>, Vec<Sample>)| e.0@;
    let ghost viewf = |e: (Vec<char>, Vec<Sample>)| (e.0@, e.1@);
    proof {
        assert(char_keys(series@) =~= series@.map_values(keyf));
        assert(series_view(series@) =~= series@.map_values(viewf));
    }
    match find_last_key(series, key.as_slice()) {
        Some(i) => {
            let ghost old_entry = series@[i as int];
            proof {
                lemma_last_index(char_keys(series@), key@);
                assert(char_keys(series@)[i as int] == old_entry.0@);
            }
            let mut samples: Vec<Sample> = Vec::new();
            std::mem::swap(&mut samples, &mut series[i].1);
            samples.push(s);
            let ghost new_entry = (old_entry.0, samples);
            proof {
                lemma_put_mapped(old(series)@, keyf, viewf, (key, samples));
                assert(old_entry.0@ == key@);
            }
            let mut k2: Vec<char> = Vec::new();
            std::mem::swap(&mut k2, &mut series[i].0);
            series.set(i, (k2, samples));
            assert(series_view(series@) =~= old(series)@.update(i as int, (key, samples)).map_values(viewf));
        },
        None => {
            let ghost before = series@;
            let mut one: Vec<Sample> = Vec::new();
            one.push(s);
            proof {
                lemma_put_mapped(series@, keyf, viewf, (key, one));
                assert(one@ =~= seq![s]);
            }
            series.push((key, one));
            assert(series_view(series@) =~= before.push((key, one)).map_values(viewf));
        },
    }
}


/// Append each named value as a sample at time `t` (see [`push_values`]).
fn push_values_exec(series: &mut Vec<(Vec<char>, Vec<Sample>)>, vals: Vec<(Vec<char>, Base, u64)>, t: u64)
    ensures
        series_view(final(series)@) == push_values(series_view(old(series)@), value_views(vals@), t),
{
    let ghost vv = value_views(vals@);
    let n = vals.len();
    let mut rest = vals;
    let mut done: usize = 0;
    while done < n
        invariant
            n == vv.len(),
            done <= n,
            value_views(rest@) == vv.skip(done as int),
            series_view(series@) == push_values(series_view(old(series)@), vv.take(done as int), t),
        decreases n - done,
    {
        assert(value_views(rest@).len() == rest@.len());
        let ghost r0 = rest@;
        let (key, b, bits) = rest.remove(0);
        assert(value_views(rest@) =~= value_views(r0).skip(1));
        assert(vv.skip(done as int).skip(1) =~= vv.skip(done + 1));
        assert(value_views(r0)[0] == (key@, b, bits));
        assert(vv.take(done + 1).drop_last() =~= vv.take(done as int));
        assert(vv.take(done + 1).last() == vv[done as int]);
        push_sample_exec(series, key, Sample { t_us: t, base: b, bits });
        done = done + 1;
    }
    assert(vv.take(n as int) =~= vv);
}


impl Reader {
    fn new() -> (r: Reader)
        ensures
            r.view() == empty_state(),
            r.wf(),
    {
        let r = Reader {
            formats: Vec::new(),
            layouts: Vec::new(),
            subs: Vec::new(),
            info: Vec::new(),
            series: Vec::new(),
            messages: Vec::new(),
            min_ts: None,
        };
        assert(r.view().formats =~= seq![]);
        assert(r.view().layouts =~= seq![]);
        assert(r.view().subs =~= seq![]);
        assert(r.view().info =~= seq![]);
        assert(r.view().series =~= seq![]);
        assert(r.view().messages =~= seq![]);
        r
    }

    /// An 'F' message.
    fn on_format(&mut self, p: &[u8])
        requires
            old(self).wf(),
        ensures
            final(self).wf(),
            final(self).view() == step(old(self).view(), 0x46, p@),
    {
        match parse_format(p) {
            Some((name, fields)) => {
                let ghost keyf = |e: (Vec<char>, Vec<(Vec<char>, Vec<char>)>)| e.0@;
                let ghost viewf = |e: (Vec<char>, Vec<(Vec<char>, Vec<char>)>)| (e.0@, pair_views(e.1@));
                proof {
                    assert(char_keys(self.formats@) =~= self.formats@.map_values(keyf));
                    assert(formats_view(self.formats@) =~= self.formats@.map_values(viewf));
                    lemma_put_mapped(self.formats@, keyf, viewf, (name, fields));
                }
                let ghost before = self.formats@;
                put_keyed(&mut self.formats, name, fields);
                assert(formats_view(self.formats@) =~= self.formats@.map_values(viewf));
            },
            None => {},
        }
    }

    /// An 'I' message.
    fn on_info(&mut self, p: &[u8])
        requires
            old(self).wf(),
        ensures
            final(self).wf(),
            final(self).view() == step(old(self).view(), 0x49, p@),
    {
        match parse_info(p) {
            Some((k, v)) => {
                let ghost keyf = |e: (Vec<char>, InfoValue)| e.0@;
                let ghost viewf = |e: (Vec<char>, InfoValue)| (e.0@, e.1.view());
                proof {
                    assert(char_keys(self.info@) =~= self.info@.map_values(keyf));
                    assert(infos_view(self.info@) =~= self.info@.map_values(viewf));
                    lemma_put_mapped(self.info@, keyf, viewf, (k, v));
                }
                put_keyed(&mut self.info, k, v);
                assert(infos_view(self.info@) =~= self.info@.map_values(viewf));
            },
            None => {},
        }
    }

    /// An 'A' message.
    fn on_subscribe(&mut self, p: &[u8])
        requires
            old(self).wf(),
        ensures
            final(self).wf(),
            final(self).view() == step(old(self).view(), 0x41, p@),
    {
        let n = p.len();
        if n >= 3 {
            let multi = p[0];
            let id: u16 = (p[1] as u16) + 256 * (p[2] as u16);
            assert(id == le16(p@[1], p@[2]));
            let msg = lossy_chars(slice_subrange(p, 3, n));
            assert(p@.subrange(3, n as int) =~= p@.skip(3));
            let ghost keyf = |e: (u16, (Vec<char>, u8))| e.0;
            let ghost viewf = |e: (u16, (Vec<char>, u8))| (e.0, (e.1.0@, e.1.1));
            proof {
                assert(subs_view(self.subs@) =~= self.subs@.map_values(viewf));
                lemma_put_mapped(self.subs@, keyf, viewf, (id, (msg, multi)));
            }
            let ghost before = self.subs@;
            match find_sub(&self.subs, id) {
                Some(i) => {
                    self.subs.set(i, (id, (msg, multi)));
                },
                None => {
                    self.subs.push((id, (msg, multi)));
                },
            }
            assert(subs_view(self.subs@) =~= self.subs@.map_values(viewf));
        }
    }

    /// An 'L' message.
    fn on_logged(&mut self, p: &[u8])
        requires
            old(self).wf(),
        ensures
            final(self).wf(),
            final(self).view() == step(old(self).view(), 0x4c, p@),
    {
        let n = p.len();
        if n >= 9 {
            let level = p[0];
            let ts = read_le(p, 1, 8);
            let text = lossy_string(slice_subrange(p, 9, n));
            assert(p@.subrange(9, n as int) =~= p@.skip(9));
            self.min_ts = track_min_exec(self.min_ts, ts);
            let ghost before = self.messages@;
            self.messages.push(RawMessage { t_us: ts, level, text });
            assert(messages_view(self.messages@) =~= messages_view(before).push((ts, level, text@)));
        }
    }
}


/// Looking up in a mapped association list.
proof fn lemma_lookup_mapped<A, K, W>(s: Seq<A>, key: spec_fn(A) -> K, view: spec_fn(A) -> (K, W), k: K)
    requires
        forall|x: A| #[trigger] view(x).0 == key(x),
    ensures
        last_index(s.map_values(key), k) < s.len(),
        lookup(s.map_values(view), k) == (if last_index(s.map_values(key), k) < 0 {
            None
        } else {
            Some(view(s[last_index(s.map_values(key), k)]).1)
        }),
{
    assert(s.map_values(view).map_values(|e: (K, W)| e.0) =~= s.map_values(key));
    lemma_last_index(s.map_values(key), k);
}

impl Reader {
    /// A 'D' message.
    fn on_data(&mut self, p: &[u8])
        requires
            old(self).wf(),
        ensures
            final(self).wf(),
            final(self).view() == step(old(self).view(), 0x44, p@),
    {
        let n = p.len();
        if n < 2 {
            return;
        }
        let id: u16 = (p[0] as u16) + 256 * (p[1] as u16);
        assert(id == le16(p@[0], p@[1]));
        let ghost skey = |e: (u16, (Vec<char>, u8))| e.0;
        let ghost sview = |e: (u16, (Vec<char>, u8))| (e.0, (e.1.0@, e.1.1));
        proof {
            assert(subs_view(self.subs@) =~= self.subs@.map_values(sview));
            lemma_lookup_mapped(self.subs@, skey, sview, id);
        }
        let i = match find_sub(&self.subs, id) {
            None => {
                return;
            },
            Some(i) => i,
        };
        let mlen = self.subs[i].1.0.len();
        let msg = slice_chars(self.subs[i].1.0.as_slice(), 0, mlen);
        assert(msg@ =~= self.subs@[i as int].1.0@);
        let multi = self.subs[i].1.1;
        let data = slice_subrange(p, 2, n);
        assert(data@ =~= p@.skip(2));
        let ghost st = self.view();
        let ghost lkey = |e: (Vec<char>, Vec<ResolvedField>)| e.0@;
        let ghost lview = |e: (Vec<char>, Vec<ResolvedField>)| (e.0@, fields_view(e.1@));
        let ghost fkey = |e: (Vec<char>, Vec<(Vec<char>, Vec<char>)>)| e.0@;
        let ghost fview = |e: (Vec<char>, Vec<(Vec<char>, Vec<char>)>)| (e.0@, pair_views(e.1@));
        proof {
            assert(char_keys(self.layouts@) =~= self.layouts@.map_values(lkey));
            assert(layouts_view(self.layouts@) =~= self.layouts@.map_values(lview));
            lemma_lookup_mapped(self.layouts@, lkey, lview, msg@);
            assert(char_keys(self.formats@) =~= self.formats@.map_values(fkey));
            assert(formats_view(self.formats@) =~= self.formats@.map_values(fview));
            lemma_lookup_mapped(self.formats@, fkey, fview, msg@);
        }
        let k: usize = match find_last_key(&self.layouts, msg.as_slice()) {
            Some(k) => {
                assert(lookup(st.layouts, msg@) == Some(fields_view(self.layouts@[k as int].1@)));
                assert(resolve_layout(st, msg@) == (self.view(), Some(fields_view(self.layouts@[k as int].1@))));
                k
            },
            None => match find_last_key(&self.formats, msg.as_slice()) {
                None => {
                    return;
                },
                Some(j) => match resolve_fields(&self.formats, &self.formats[j].1) {
                    None => {
                        return;
                    },
                    Some(fs) => {
                        let ghost fsv = fields_view(fs@);
                        proof {
                            lemma_layout_of_wf(formats_view(self.formats@), pair_views(self.formats@[j as int].1@));
                            assert forall|q: int| 0 <= q < fs@.len() implies #[trigger] layout_wf(fs@[q].view()) by {
                                assert(fsv[q] == fs@[q].view());
                            }
                        }
                        let key = slice_chars(msg.as_slice(), 0, msg.len());
                        assert(key@ =~= msg@);
                        proof {
                            lemma_put_mapped(self.layouts@, lkey, lview, (key, fs));
                        }
                        let ghost before = self.layouts@;
                        put_keyed(&mut self.layouts, key, fs);
                        assert(layouts_view(self.layouts@) =~= self.layouts@.map_values(lview));
                        assert(self.layouts@ == before.push((key, fs)));
                        assert(lookup(st.formats, msg@) == Some(pair_views(self.formats@[j as int].1@)));
                        assert(self.view() == ParseState { layouts: assoc_put(st.layouts, msg@, fsv), ..st });
                        assert(resolve_layout(st, msg@) == (self.view(), Some(fields_view(self.layouts@[self.layouts@.len() - 1].1@))));
                        assert forall|a: int, b: int|
                            0 <= a < self.layouts@.len() && 0 <= b < self.layouts@[a].1@.len() implies #[trigger] layout_wf(
                            self.layouts@[a].1@[b].view(),
                        ) by {
                            if a < before.len() {
                                assert(self.layouts@[a] == before[a]);
                            }
                        }
                        self.layouts.len() - 1
                    },
                },
            },
        };
        assert(resolve_layout(st, msg@) == (self.view(), Some(fields_view(self.layouts@[k as int].1@))));
        assert(forall|q: int| 0 <= q < self.layouts@[k as int].1@.len() ==> #[trigger] layout_wf(self.layouts@[k as int].1@[q].view()));
        match scan_fields(msg.as_slice(), multi, &self.layouts[k].1, data) {
            Some((ts, vals)) => match ts {
                Some(t) => {
                    self.min_ts = track_min_exec(self.min_ts, t);
                    push_values_exec(&mut self.series, vals, t);
                },
                None => {},
            },
            None => {},
        }
    }
}


impl Reader {
    /// Any message.
    fn on_message(&mut self, t: u8, p: &[u8])
        requires
            old(self).wf(),
        ensures
            final(self).wf(),
            final(self).view() == step(old(self).view(), t, p@),
    {
        if t == 0x46 {
            self.on_format(p);
        } else if t == 0x49 {
            self.on_info(p);
        } else if t == 0x41 {
            self.on_subscribe(p);
        } else if t == 0x44 {
            self.on_data(p);
        } else if t == 0x4c {
            self.on_logged(p);
        }
    }
}

/// Why a buffer is not read as a ULog file.
#[derive(Clone, Copy, PartialEq, Eq, Debug, Structural)]
pub enum UlogError {
    /// Shorter than the header, or the magic does not match.
    BadMagic,
}

impl UlogError {
    /// Human-readable description.
    pub fn message(&self) -> (s: &'static str)
        ensures
            *self == UlogError::BadMagic ==> s@ == "not a ULog file (bad magic)"@,
    {
        match self {
            UlogError::BadMagic => "not a ULog file (bad magic)",
        }
    }
}

/// A parsed log: raw samples by series, logged strings and info values,
/// with times in raw microseconds.
pub struct RawLog {
    pub source: String,
    pub name: String,
    /// Samples by series name (`message[instance].field`, arrays as
    /// `field[i]`), series in order of first appearance.
    pub series: Vec<(String, Vec<Sample>)>,
    /// Logged strings, in file order.
    pub messages: Vec<RawMessage>,
    /// Info values by key, keys in order of first appearance.
    pub info: Vec<(String, InfoValue)>,
    /// Smallest non-zero timestamp of any sample or logged string.
    pub min_ts: Option<u64>,
}

/// View of series with `String` names.
pub open spec fn named_series_view(v: Seq<(String, Vec<Sample>)>) -> Seq<(Seq<char>, Seq<Sample>)> {
    v.map_values(|e: (String, Vec<Sample>)| (e.0@, e.1@))
}

/// View of info values with `String` keys.
pub open spec fn named_info_view(v: Seq<(String, InfoValue)>) -> Seq<(Seq<char>, InfoView)> {
    v.map_values(|e: (String, InfoValue)| (e.0@, e.1.view()))
}

/// Re-key a list by `String`s with the same characters.
fn with_string_keys<V>(v: Vec<(Vec<char>, V)>) -> (r: Vec<(String, V)>)
    ensures
        r@.len() == v@.len(),
        forall|i: int| 0 <= i < v@.len() ==> (#[trigger] r@[i]).0@ == v@[i].0@ && r@[i].1 == v@[i].1,
{
    let ghost orig = v@;
    let n = v.len();
    let mut rest = v;
    let mut out: Vec<(String, V)> = Vec::new();
    while rest.len() > 0
        invariant
            n == orig.len(),
            out@.len() + rest@.len() == n,
            rest@ == orig.skip(out@.len() as int),
            forall|i: int| 0 <= i < out@.len() ==> (#[trigger] out@[i]).0@ == orig[i].0@ && out@[i].1 == orig[i].1,
        decreases rest@.len(),
    {
        let ghost r0 = rest@;
        let (k, val) = rest.remove(0);
        assert(rest@ =~= orig.skip(out@.len() + 1int));
        let key = crate::text::string_of(k.as_slice());
        out.push((key, val));
    }
    out
}

/// Parse a complete ULog buffer. Everything after the 16-byte header is read
/// message by message until the end of the buffer or the first truncated
/// message.
pub fn parse(bytes: &[u8], source: &str, name: &str) -> (r: Result<RawLog, UlogError>)
    ensures
        match r {
            Err(e) => e == UlogError::BadMagic && !has_ulog_header(bytes@),
            Ok(log) => {
                let st = run(bytes@, 16, empty_state());
                &&& has_ulog_header(bytes@)
                &&& log.source@ == source@
                &&& log.name@ == name@
                &&& named_series_view(log.series@) == st.series
                &&& messages_view(log.messages@) == st.messages
                &&& named_info_view(log.info@) == st.info
                &&& log.min_ts == st.min_ts
            },
        },
{
    let n = bytes.len();
    if n < 16 || bytes[0] != 0x55 || bytes[1] != 0x4C || bytes[2] != 0x6F || bytes[3] != 0x67
        || bytes[4] != 0x01 || bytes[5] != 0x12 || bytes[6] != 0x35 {
        proof {
            if n >= 16 && bytes@.take(7) == magic() {
                assert(bytes@.take(7)[0] == bytes@[0]);
                assert(bytes@.take(7)[1] == bytes@[1]);
                assert(bytes@.take(7)[2] == bytes@[2]);
                assert(bytes@.take(7)[3] == bytes@[3]);
                assert(bytes@.take(7)[4] == bytes@[4]);
                assert(bytes@.take(7)[5] == bytes@[5]);
                assert(bytes@.take(7)[6] == bytes@[6]);
            }
        }
        return Err(UlogError::BadMagic);
    }
    assert(bytes@.take(7) =~= magic());
    let mut rd = Reader::new();
    let mut pos: usize = 16;
    loop
        invariant
            n == bytes@.len(),
            pos <= n,
            rd.wf(),
            run(bytes@, pos as int, rd.view()) == run(bytes@, 16, empty_state()),
        ensures
            rd.wf(),
            rd.view() == run(bytes@, 16, empty_state()),
        decreases n - pos,
    {
        match next_message(bytes, pos) {
            None => {
                break;
            },
            Some((t, a, b)) => {
                let payload = slice_subrange(bytes, a, b);
                rd.on_message(t, payload);
                pos = b;
            },
        }
    }
    let Reader { formats: _, layouts: _, subs: _, info, series, messages, min_ts } = rd;
    let ghost st = run(bytes@, 16, empty_state());
    let series_out = with_string_keys(series);
    let info_out = with_string_keys(info);
    assert(named_series_view(series_out@) =~= st.series);
    assert(named_info_view(info_out@) =~= st.info);
    Ok(RawLog {
        source: crate::text::owned(source),
        name: crate::text::owned(name),
        series: series_out,
        messages,
        info: info_out,
        min_ts,
    })
}


/// Name of a PX4 `nav_state` (a common subset; others are `MODE_<n>`).
pub open spec fn nav_name(n: int) -> Seq<char> {
    if n == 0 {
        "MANUAL"@
    } else if n == 1 {
        "ALTCTL"@
    } else if n == 2 {
        "POSCTL"@
    } else if n == 3 {
        "AUTO_MISSION"@
    } else if n == 4 {
        "AUTO_LOITER"@
    } else if n == 5 {
        "AUTO_RTL"@
    } else if n == 10 {
        "ACRO"@
    } else if n == 12 {
        "DESCEND"@
    } else if n == 13 {
        "TERMINATION"@
    } else if n == 14 {
        "OFFBOARD"@
    } else if n == 15 {
        "STAB"@
    } else if n == 17 {
        "AUTO_TAKEOFF"@
    } else if n == 18 {
        "AUTO_LAND"@
    } else if n == 19 {
        "AUTO_FOLLOW"@
    } else if n == 20 {
        "AUTO_PRECLAND"@
    } else {
        "MODE_"@ + decimal_int(n)
    }
}

/// PX4 `nav_state` to a human-readable name.
pub fn nav_state_name(n: i64) -> (s: String)
    ensures
        s@ == nav_name(n as int),
{
    let named: Option<&str> = match n {
        0 => Some("MANUAL"),
        1 => Some("ALTCTL"),
        2 => Some("POSCTL"),
        3 => Some("AUTO_MISSION"),
        4 => Some("AUTO_LOITER"),
        5 => Some("AUTO_RTL"),
        10 => Some("ACRO"),
        12 => Some("DESCEND"),
        13 => Some("TERMINATION"),
        14 => Some("OFFBOARD"),
        15 => Some("STAB"),
        17 => Some("AUTO_TAKEOFF"),
        18 => Some("AUTO_LAND"),
        19 => Some("AUTO_FOLLOW"),
        20 => Some("AUTO_PRECLAND"),
        _ => None,
    };
    match named {
        Some(t) => crate::text::owned(t),
        None => {
            let mut cs = chars_of("MODE_");
            push_decimal_i64(&mut cs, n);
            crate::text::string_of(cs.as_slice())
        },
    }
}

/// A run of consecutive samples with the same mode name: the name and the
/// indices of the run's first and last samples.
pub struct ModeRun {
    pub mode: String,
    pub first: usize,
    pub last: usize,
}

/// The maximal runs of equal mode names over a sequence of `nav_state`
/// values, in order.
pub open spec fn mode_runs_of(codes: Seq<i64>) -> Seq<(Seq<char>, int, int)>
    decreases codes.len(),
{
    if codes.len() == 0 {
        seq![]
    } else {
        let prev = mode_runs_of(codes.drop_last());
        let name = nav_name(codes.last() as int);
        let i = codes.len() - 1;
        if prev.len() > 0 && prev.last().0 == name {
            prev.update(prev.len() - 1, (name, prev.last().1, i))
        } else {
            prev.push((name, i, i))
        }
    }
}

/// View of mode runs.
pub open spec fn runs_view(v: Seq<ModeRun>) -> Seq<(Seq<char>, int, int)> {
    v.map_values(|r: ModeRun| (r.mode@, r.first as int, r.last as int))
}

/// Flight-mode runs over the `nav_state` values of a series.
pub fn mode_runs(codes: &[i64]) -> (runs: Vec<ModeRun>)
    ensures
        runs_view(runs@) == mode_runs_of(codes@),
{
    let mut runs: Vec<ModeRun> = Vec::new();
    let mut i: usize = 0;
    while i < codes.len()
        invariant
            i <= codes@.len(),
            runs_view(runs@) == mode_runs_of(codes@.take(i as int)),
        decreases codes@.len() - i,
    {
        assert(codes@.take(i + 1).drop_last() =~= codes@.take(i as int));
        assert(codes@.take(i + 1).last() == codes@[i as int]);
        let name = nav_state_name(codes[i]);
        let nr = runs.len();
        let extend = if nr > 0 {
            let a = chars_of(runs[nr - 1].mode.as_str());
            let b = chars_of(name.as_str());
            chars_eq(a.as_slice(), b.as_slice())
        } else {
            false
        };
        let ghost before = runs@;
        if extend {
            let first = runs[nr - 1].first;
            runs.set(nr - 1, ModeRun { mode: name, first, last: i });
            assert(runs_view(runs@) =~= runs_view(before).update(nr - 1, (name@, first as int, i as int)));
        } else {
            runs.push(ModeRun { mode: name, first: i, last: i });
            assert(runs_view(runs@) =~= runs_view(before).push((name@, i as int, i as int)));
        }
        i = i + 1;
    }
    assert(codes@.take(i as int) =~= codes@);
    runs
}


/// The series that holds the vehicle's `nav_state`:
/// `vehicle_status[<instance>].nav_state`.
pub open spec fn is_nav_state_key(k: Seq<char>) -> bool {
    starts_with(k, "vehicle_status["@) && ends_with(k, "].nav_state"@)
}

/// Index of the `nav_state` series whose name comes first in string order,
/// if there is one.
pub fn nav_state_series(series: &Vec<(String, Vec<Sample>)>) -> (r: Option<usize>)
    ensures
        match r {
            Some(i) => i < series@.len() && is_nav_state_key(series@[i as int].0@) && forall|j: int|
                0 <= j < series@.len() && is_nav_state_key(#[trigger] series@[j].0@) ==> !lex_lt(
                    series@[j].0@,
                    series@[i as int].0@,
                ),
            None => forall|j: int| 0 <= j < series@.len() ==> !is_nav_state_key(#[trigger] series@[j].0@),
        },
{
    let pre = chars_of("vehicle_status[");
    let suf = chars_of("].nav_state");
    let mut best: Option<usize> = None;
    let mut best_key: Vec<char> = Vec::new();
    let mut i: usize = 0;
    while i < series.len()
        invariant
            i <= series@.len(),
            pre@ == "vehicle_status["@,
            suf@ == "].nav_state"@,
            match best {
                Some(b) => b < i && best_key@ == series@[b as int].0@ && is_nav_state_key(best_key@)
                    && forall|j: int|
                    0 <= j < i && is_nav_state_key(#[trigger] series@[j].0@) ==> !lex_lt(series@[j].0@, best_key@),
                None => forall|j: int| 0 <= j < i ==> !is_nav_state_key(#[trigger] series@[j].0@),
            },
        decreases series@.len() - i,
    {
        let k = chars_of(series[i].0.as_str());
        if starts_with_chars(k.as_slice(), pre.as_slice()) && ends_with_chars(k.as_slice(), suf.as_slice()) {
            match best {
                None => {
                    proof {
                        crate::text::lemma_lex_irrefl(k@);
                    }
                    best = Some(i);
                    best_key = k;
                },
                Some(b) => {
                    if crate::text::lex_less(k.as_slice(), best_key.as_slice()) {
                        proof {
                            assert forall|j: int|
                                0 <= j < i + 1 && is_nav_state_key(#[trigger] series@[j].0@) implies !lex_lt(
                                series@[j].0@,
                                k@,
                            ) by {
                                if j < i && lex_lt(series@[j].0@, k@) {
                                    crate::text::lemma_lex_trans(series@[j].0@, k@, best_key@);
                                }
                                if j == i {
                                    crate::text::lemma_lex_irrefl(k@);
                                }
                            }
                        }
                        best = Some(i);
                        best_key = k;
                    }
                },
            }
        }
        i = i + 1;
    }
    best
}



/// Law: the mode runs cut the samples into consecutive, non-empty, maximal
/// runs: they start at the first sample, end at the last, each follows the
/// previous one directly with a different name, and every sample in a run
/// has the run's name.
pub proof fn lemma_mode_runs_partition(codes: Seq<i64>)
    ensures
        (mode_runs_of(codes).len() == 0) == (codes.len() == 0),
        mode_runs_of(codes).len() > 0 ==> mode_runs_of(codes)[0].1 == 0 && mode_runs_of(codes).last().2
            == codes.len() - 1,
        forall|k: int|
            0 <= k < mode_runs_of(codes).len() ==> 0 <= (#[trigger] mode_runs_of(codes)[k]).1 <= mode_runs_of(codes)[k].2
                < codes.len(),
        forall|k: int|
            0 <= k < mode_runs_of(codes).len() - 1 ==> (#[trigger] mode_runs_of(codes)[k + 1]).1 == mode_runs_of(codes)[k].2 + 1
                && mode_runs_of(codes)[k + 1].0 != mode_runs_of(codes)[k].0,
        forall|k: int, i: int|
            0 <= k < mode_runs_of(codes).len() && (#[trigger] mode_runs_of(codes)[k]).1 <= i <= mode_runs_of(codes)[k].2
                ==> nav_name(#[trigger] codes[i] as int) == mode_runs_of(codes)[k].0,
    decreases codes.len(),
{
    if codes.len() > 0 {
        let pc = codes.drop_last();
        lemma_mode_runs_partition(pc);
        let prev = mode_runs_of(pc);
        let r = mode_runs_of(codes);
        let name = nav_name(codes.last() as int);
        let n = codes.len() - 1;
        assert forall|i: int| 0 <= i < n implies #[trigger] codes[i] == pc[i] by {}
        let extend = prev.len() > 0 && prev.last().0 == name;
        assert forall|k: int| 0 <= k < r.len() - 1 implies #[trigger] r[k] == prev[k] by {}
        assert forall|k: int, i: int|
            0 <= k < r.len() && (#[trigger] r[k]).1 <= i <= r[k].2 implies nav_name(#[trigger] codes[i] as int) == r[k].0 by {
            if k == r.len() - 1 {
                if i < n {
                    assert(extend);
                    assert(prev[k].1 <= i <= prev[k].2);
                    assert(codes[i] == pc[i]);
                }
            } else {
                assert(r[k] == prev[k]);
                assert(codes[i] == pc[i]);
            }
        }
        assert forall|k: int| 0 <= k < r.len() - 1 implies (#[trigger] r[k + 1]).1 == r[k].2 + 1 && r[k + 1].0 != r[k].0 by {
            assert(r[k] == prev[k]);
            if k + 1 < r.len() - 1 {
                assert(r[k + 1] == prev[k + 1]);
            }
        }
        assert forall|k: int| 0 <= k < r.len() implies 0 <= (#[trigger] r[k]).1 <= r[k].2 < codes.len() by {
            if k < r.len() - 1 {
                assert(r[k] == prev[k]);
            }
        }
    }
}

} // verus!
