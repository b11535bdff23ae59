//! Little-endian ULog writers: message framing and the payloads of the
//! definition, subscription, logged-string and data messages. What they
//! write reads back through [`crate::ulog`].

use vstd::prelude::*;

use vstd::utf8::encode_utf8;

use crate::text::utf8_lossy;
use crate::text::{find, find_from, lemma_find_from, split_once, starts_with};
use crate::ulog::{assoc_put, frame_at, info_of, le16, le_value, pow256, run, step, track_min, InfoView, ParseState};

verus! {

/// The low `n` bytes of `v`, least significant first.
pub open spec fn le_bytes(v: nat, n: nat) -> Seq<u8>
    decreases n,
{
    if n == 0 {
        seq![]
    } else {
        seq![(v % 256) as u8] + le_bytes(v / 256, (n - 1) as nat)
    }
}

/// Law: reading back `n` little-endian bytes gives the value modulo `256^n`.
pub proof fn lemma_le_bytes_value(v: nat, n: nat)
    ensures
        le_bytes(v, n).len() == n,
        le_value(le_bytes(v, n)) == v % pow256(n),
    decreases n,
{
    if n > 0 {
        lemma_le_bytes_value(v / 256, (n - 1) as nat);
        let bs = le_bytes(v, n);
        assert(bs.drop_first() =~= le_bytes(v / 256, (n - 1) as nat));
        let p = pow256((n - 1) as nat);
        assert(p > 0) by {
            lemma_pow256_pos((n - 1) as nat);
        }
        assert(pow256(n) == 256 * p);
        assert((v % 256) + 256 * ((v / 256) % p) == v % (256 * p)) by (nonlinear_arith)
            requires
                p > 0,
        {
            vstd::arithmetic::div_mod::lemma_breakdown(v as int, 256, p as int);
        }
    }
}

proof fn lemma_pow256_pos(n: nat)
    ensures
        pow256(n) > 0,
    decreases n,
{
    if n > 0 {
        lemma_pow256_pos((n - 1) as nat);
    }
}

/// Append the low `n` bytes of `v`, least significant first.
pub fn push_le(out: &mut Vec<u8>, v: u64, n: usize)
    requires
        n <= 8,
    ensures
        final(out)@ == old(out)@ + le_bytes(v as nat, n as nat),
{
    let mut w: u64 = v;
    let mut k: usize = 0;
    assert(old(out)@ + le_bytes(v as nat, n as nat) =~= out@ + le_bytes(w as nat, (n - k) as nat));
    while k < n
        invariant
            k <= n,
            old(out)@ + le_bytes(v as nat, n as nat) == out@ + le_bytes(w as nat, (n - k) as nat),
        decreases n - k,
    {
        let ghost rest = le_bytes(w as nat, (n - k) as nat);
        assert(rest == seq![(w % 256) as u8] + le_bytes((w / 256) as nat, (n - k - 1) as nat));
        out.push((w % 256) as u8);
        w = w / 256;
        k = k + 1;
        assert(out@ + le_bytes(w as nat, (n - k) as nat) =~= old(out)@ + le_bytes(v as nat, n as nat));
    }
}

/// The frame of one message: payload size (as a `u16`, truncated), type,
/// payload.
pub open spec fn framed(t: u8, payload: Seq<u8>) -> Seq<u8> {
    le_bytes(payload.len() % 65536, 2) + seq![t] + payload
}

/// Append one message frame.
pub fn put_msg(out: &mut Vec<u8>, mtype: u8, payload: &[u8])
    ensures
        final(out)@ == old(out)@ + framed(mtype, payload@),
{
    let n = payload.len();
    let size: u64 = (n % 65536) as u64;
    push_le(out, size, 2);
    out.push(mtype);
    let mut i: usize = 0;
    let ghost mid = out@;
    while i < n
        invariant
            i <= n == payload@.len(),
            out@ == mid + payload@.take(i as int),
        decreases n - i,
    {
        out.push(payload[i]);
        assert(out@ =~= mid + payload@.take(i + 1));
        i = i + 1;
    }
    assert(payload@.take(n as int) =~= payload@);
    assert(final(out)@ =~= old(out)@ + framed(mtype, payload@));
}

/// Law: a frame written at the end of a buffer reads back as the same type
/// and payload, and the next frame starts right after it (for payloads that
/// fit the 16-bit size).
pub proof fn lemma_frame_roundtrip(prefix: Seq<u8>, t: u8, payload: Seq<u8>, rest: Seq<u8>)
    requires
        payload.len() < 65536,
    ensures
        frame_at(prefix + framed(t, payload) + rest, prefix.len() as int) == Some(
            (t, payload, (prefix.len() + 3 + payload.len()) as int),
        ),
{
    let bs = prefix + framed(t, payload) + rest;
    let pos = prefix.len() as int;
    let n = payload.len();
    assert(le_bytes(n % 65536, 2) =~= seq![((n % 65536) % 256) as u8, (((n % 65536) / 256) % 256) as u8]) by {
        reveal_with_fuel(le_bytes, 3);
    }
    assert(bs[pos] == ((n % 65536) % 256) as u8);
    assert(bs[pos + 1] == (((n % 65536) / 256) % 256) as u8);
    assert(bs[pos + 2] == t);
    assert(bs[pos] as int + 256 * bs[pos + 1] as int == n);
    assert(bs.subrange(pos + 3, pos + 3 + n) =~= payload);
}

/// Append a raw byte string.
fn push_bytes(out: &mut Vec<u8>, bs: &[u8])
    ensures
        final(out)@ == old(out)@ + bs@,
{
    let n = bs.len();
    let mut i: usize = 0;
    while i < n
        invariant
            i <= n == bs@.len(),
            out@ == old(out)@ + bs@.take(i as int),
        decreases n - i,
    {
        out.push(bs[i]);
        assert(out@ =~= old(out)@ + bs@.take(i + 1));
        i = i + 1;
    }
    assert(bs@.take(n as int) =~= bs@);
}

/// Append an 'F' format definition (`name:type field;...`).
pub fn put_format(out: &mut Vec<u8>, def: &str)
    ensures
        final(out)@ == old(out)@ + framed(0x46, encode_utf8(def@)),
{
    put_msg(out, 0x46, def.as_bytes());
}

/// Payload of an 'A' subscription: instance, message id, message name.
pub open spec fn add_payload(multi_id: u8, msg_id: u16, name: Seq<u8>) -> Seq<u8> {
    seq![multi_id] + le_bytes(msg_id as nat, 2) + name
}

/// Append an 'A' subscription of message `name` as `msg_id`.
pub fn put_add(out: &mut Vec<u8>, multi_id: u8, msg_id: u16, name: &str)
    ensures
        final(out)@ == old(out)@ + framed(0x41, add_payload(multi_id, msg_id, encode_utf8(name@))),
{
    let mut p: Vec<u8> = Vec::new();
    p.push(multi_id);
    push_le(&mut p, msg_id as u64, 2);
    push_bytes(&mut p, name.as_bytes());
    assert(p@ =~= add_payload(multi_id, msg_id, encode_utf8(name@)));
    put_msg(out, 0x41, p.as_slice());
}

/// Payload of an 'L' logged string: level, time, text.
pub open spec fn logged_payload(level: u8, t_us: u64, text: Seq<u8>) -> Seq<u8> {
    seq![level] + le_bytes(t_us as nat, 8) + text
}

/// Append an 'L' logged string.
pub fn put_logged(out: &mut Vec<u8>, level: u8, t_us: u64, text: &str)
    ensures
        final(out)@ == old(out)@ + framed(0x4c, logged_payload(level, t_us, encode_utf8(text@))),
{
    let mut p: Vec<u8> = Vec::new();
    p.push(level);
    push_le(&mut p, t_us, 8);
    push_bytes(&mut p, text.as_bytes());
    assert(p@ =~= logged_payload(level, t_us, encode_utf8(text@)));
    put_msg(out, 0x4c, p.as_slice());
}

/// The 16-byte file header: magic, version 0, start time.
pub open spec fn header_bytes(t0_us: u64) -> Seq<u8> {
    crate::ulog::magic() + seq![0u8] + le_bytes(t0_us as nat, 8)
}

/// Append the file header.
pub fn put_header(out: &mut Vec<u8>, t0_us: u64)
    ensures
        final(out)@ == old(out)@ + header_bytes(t0_us),
{
    out.push(0x55);
    out.push(0x4C);
    out.push(0x6F);
    out.push(0x67);
    out.push(0x01);
    out.push(0x12);
    out.push(0x35);
    out.push(0);
    push_le(out, t0_us, 8);
    assert(final(out)@ =~= old(out)@ + header_bytes(t0_us));
}

/// Payload of a text 'I' info message: key length, `char[N] key`, value.
pub open spec fn info_text_payload(key_field: Seq<u8>, value: Seq<u8>) -> Seq<u8> {
    seq![(key_field.len() % 256) as u8] + key_field + value
}

/// The key field of a text info value: `char[<value length>] <key>`.
pub open spec fn text_key_field(key: Seq<char>, value_len: nat) -> Seq<char> {
    "char["@ + crate::text::decimal(value_len) + "] "@ + key
}

/// Append a text 'I' info message `key` = `value`.
pub fn put_info_text(out: &mut Vec<u8>, key: &str, value: &str)
    ensures
        final(out)@ == old(out)@ + framed(
            0x49,
            info_text_payload(
                encode_utf8(text_key_field(key@, encode_utf8(value@).len())),
                encode_utf8(value@),
            ),
        ),
{
    let vb = value.as_bytes();
    let mut kf: Vec<char> = crate::text::chars_of("char[");
    crate::text::push_decimal(&mut kf, vb.len() as u64);
    crate::text::push_str_chars(&mut kf, "] ");
    crate::text::push_str_chars(&mut kf, key);
    let kfs = crate::text::string_of(kf.as_slice());
    assert(kfs@ =~= text_key_field(key@, encode_utf8(value@).len()));
    let kb = kfs.as_str().as_bytes();
    let mut p: Vec<u8> = Vec::new();
    p.push((kb.len() % 256) as u8);
    push_bytes(&mut p, kb);
    push_bytes(&mut p, vb);
    assert(p@ =~= info_text_payload(kb@, vb@));
    put_msg(out, 0x49, p.as_slice());
}

/// A data record being built: message id, timestamp, then field values.
pub struct Rec {
    bytes: Vec<u8>,
}

impl Rec {
    /// The record's bytes so far.
    pub closed spec fn view(&self) -> Seq<u8> {
        self.bytes@
    }

    /// Start a record of message `msg_id` at time `t_us`.
    pub fn new(msg_id: u16, t_us: u64) -> (r: Rec)
        ensures
            r@ == le_bytes(msg_id as nat, 2) + le_bytes(t_us as nat, 8),
    {
        let mut v: Vec<u8> = Vec::new();
        push_le(&mut v, msg_id as u64, 2);
        push_le(&mut v, t_us, 8);
        assert(v@ =~= le_bytes(msg_id as nat, 2) + le_bytes(t_us as nat, 8));
        Rec { bytes: v }
    }

    /// Add a `float` field, given by its IEEE-754 bits.
    pub fn f32_bits(self, bits: u32) -> (r: Rec)
        ensures
            r@ == self@ + le_bytes(bits as nat, 4),
    {
        let mut v = self.bytes;
        push_le(&mut v, bits as u64, 4);
        Rec { bytes: v }
    }

    /// Add a `uint8_t` field.
    pub fn u8(self, x: u8) -> (r: Rec)
        ensures
            r@ == self@.push(x),
    {
        let mut v = self.bytes;
        v.push(x);
        Rec { bytes: v }
    }

    /// Append the record as a 'D' message.
    pub fn emit(self, out: &mut Vec<u8>)
        ensures
            final(out)@ == old(out)@ + framed(0x44, self@),
    {
        put_msg(out, 0x44, self.bytes.as_slice());
    }
}


/// Law: reading a log goes frame by frame: a frame written at `pos` is
/// applied to the state, and reading continues right after it.
pub proof fn lemma_run_frame(prefix: Seq<u8>, t: u8, payload: Seq<u8>, rest: Seq<u8>, st: ParseState)
    requires
        payload.len() < 65536,
    ensures
        run(prefix + framed(t, payload) + rest, prefix.len() as int, st) == run(
            prefix + framed(t, payload) + rest,
            (prefix.len() + 3 + payload.len()) as int,
            step(st, t, payload),
        ),
{
    lemma_frame_roundtrip(prefix, t, payload, rest);
}

/// Law: a logged string written by [`put_logged`] is read back with its
/// level, its time and the decoding of its text, and its time counts
/// towards the earliest timestamp.
pub proof fn lemma_logged_roundtrip(st: ParseState, level: u8, t_us: u64, text: Seq<u8>)
    ensures
        step(st, 0x4c, logged_payload(level, t_us, text)) == (ParseState {
            min_ts: track_min(st.min_ts, t_us),
            messages: st.messages.push((t_us, level, utf8_lossy(text))),
            ..st
        }),
{
    let p = logged_payload(level, t_us, text);
    lemma_le_bytes_value(t_us as nat, 8);
    assert(p.subrange(1, 9) =~= le_bytes(t_us as nat, 8));
    assert(pow256(8) == 0x1_0000_0000_0000_0000) by {
        reveal_with_fuel(pow256, 9);
    }
    assert(p.skip(9) =~= text);
}

/// Law: a subscription written by [`put_add`] is read back as the
/// subscription of its message id to the decoded name and instance.
pub proof fn lemma_add_roundtrip(st: ParseState, multi_id: u8, msg_id: u16, name: Seq<u8>)
    ensures
        step(st, 0x41, add_payload(multi_id, msg_id, name)) == (ParseState {
            subs: assoc_put(st.subs, msg_id, (utf8_lossy(name), multi_id)),
            ..st
        }),
{
    let p = add_payload(multi_id, msg_id, name);
    assert(le_bytes(msg_id as nat, 2) =~= seq![(msg_id % 256) as u8, ((msg_id / 256) % 256) as u8]) by {
        reveal_with_fuel(le_bytes, 3);
    }
    assert(le16(p[1], p[2]) == msg_id);
    assert(p.skip(3) =~= name);
}

/// Law: an info message with a 4-byte numeric type (`uint32_t`, `int32_t`
/// or `float`) reads back under its key as the little-endian value of the
/// first four value bytes: the number for the integer types, the IEEE-754
/// bits for `float`. Whatever follows those four bytes is ignored.
pub proof fn lemma_word_info_read_back(kb: Seq<u8>, ty: Seq<char>, key: Seq<char>, v: u32, rest: Seq<u8>)
    requires
        kb.len() < 256,
        ty == "uint32_t"@ || ty == "int32_t"@ || ty == "float"@,
        utf8_lossy(kb) == ty + " "@ + key,
    ensures
        info_of(seq![kb.len() as u8] + kb + le_bytes(v as nat, 4) + rest) == Some(
            (
                key,
                if ty == "uint32_t"@ {
                    InfoView::UInt32(v)
                } else if ty == "int32_t"@ {
                    InfoView::Int32(v as i32)
                } else {
                    InfoView::Float32(v)
                },
            ),
        ),
{
    reveal_strlit("uint32_t");
    reveal_strlit("int32_t");
    reveal_strlit("float");
    reveal_strlit("char");
    reveal_strlit(" ");
    let kl = kb.len() as int;
    let vb = le_bytes(v as nat, 4) + rest;
    let p = seq![kb.len() as u8] + kb + vb;
    assert(p =~= seq![kb.len() as u8] + kb + le_bytes(v as nat, 4) + rest);
    assert(p[0] as int == kl);
    assert(p.subrange(1, 1 + kl) =~= kb);
    assert(p.skip(1 + kl) =~= vb);
    let kf = ty + " "@ + key;
    let n = ty.len() as int;
    assert(kf[n] == ' ');
    assert forall|k: int| 0 <= k < n implies kf[k] != ' ' by {
        assert(kf[k] == ty[k]);
    }
    lemma_find_from(kf, ' ', 0);
    let r = find_from(kf, ' ', 0);
    if r != n {
        if r == -1 {
            assert(kf[n] != ' ');
        } else if r < n {
            assert(kf[r] != ' ');
        } else {
            assert(kf[n] != ' ');
        }
    }
    assert(find(kf, ' ') == n);
    assert(kf.take(n) =~= ty);
    assert(kf.skip(n + 1) =~= key);
    assert(split_once(kf, ' ') == Some((ty, key)));
    assert(!starts_with(ty, "char"@)) by {
        if starts_with(ty, "char"@) {
            assert(ty.take(4)[0] == ty[0]);
        }
    }
    lemma_le_bytes_value(v as nat, 4);
    assert(vb.take(4) =~= le_bytes(v as nat, 4));
    assert(pow256(4) == 0x1_0000_0000) by {
        reveal_with_fuel(pow256, 5);
    }
    assert(le_value(vb.take(4)) == v);
}

} // verus!
