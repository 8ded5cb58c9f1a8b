//! Byte-level primitives of the binary format: LEB128 integers, written by
//! wasm-encoder and read by wasmparser, and fixed-width little-endian values.

use vstd::prelude::*;
use wasm_encoder::Encode;

verus! {

/// The unsigned LEB128 form of `v`, in the fewest bytes.
pub open spec fn uleb(v: nat) -> Seq<u8>
    decreases v,
{
    if v < 128 {
        seq![v as u8]
    } else {
        seq![(v % 128 + 128) as u8] + uleb(v / 128)
    }
}

/// The signed LEB128 form of `v`, in the fewest bytes.
pub open spec fn sleb(v: int) -> Seq<u8>
    decreases (if v < 0 { -v } else { v }),
{
    if -64 <= v < 64 {
        seq![(v % 128) as u8]
    } else {
        seq![(v % 128 + 128) as u8] + sleb(v / 128)
    }
}

/// The `n` low bytes of `v`, least significant first.
pub open spec fn le_bytes(v: nat, n: nat) -> Seq<u8>
    decreases n,
{
    if n == 0 {
        seq![]
    } else {
        seq![(v % 256) as u8] + le_bytes(v / 256, (n - 1) as nat)
    }
}

/// The number whose bytes, least significant first, are `b`.
pub open spec fn le_value(b: Seq<u8>) -> nat
    decreases b.len(),
{
    if b.len() == 0 {
        0
    } else {
        b[0] as nat + 256 * le_value(b.skip(1))
    }
}

/// Whether `b` holds `s` from offset `pos` on.
pub open spec fn starts_with(b: Seq<u8>, pos: int, s: Seq<u8>) -> bool {
    &&& 0 <= pos
    &&& pos + s.len() <= b.len()
    &&& b.subrange(pos, pos + s.len()) == s
}

/// Every unsigned LEB128 form has at least one byte.
pub proof fn lemma_uleb_nonempty(v: nat)
    ensures
        uleb(v).len() >= 1,
    decreases v,
{
    if v >= 128 {
        lemma_uleb_nonempty(v / 128);
    }
}

/// Every signed LEB128 form has at least one byte.
pub proof fn lemma_sleb_nonempty(v: int)
    ensures
        sleb(v).len() >= 1,
    decreases (if v < 0 { -v } else { v }),
{
    if !(-64 <= v < 64) {
        lemma_sleb_nonempty(v / 128);
    }
}

/// Reading back `n` little-endian bytes gives the value, when it fits.
pub proof fn lemma_le_round_trip(v: nat, n: nat)
    requires
        v < pow256(n),
    ensures
        le_bytes(v, n).len() == n,
        le_value(le_bytes(v, n)) == v,
    decreases n,
{
    if n > 0 {
        assert(v / 256 < pow256((n - 1) as nat)) by (nonlinear_arith)
            requires
                v < pow256(n),
                pow256(n) == 256 * pow256((n - 1) as nat),
        ;
        lemma_le_round_trip(v / 256, (n - 1) as nat);
        let b = le_bytes(v, n);
        assert(b.skip(1) =~= le_bytes(v / 256, (n - 1) as nat));
    }
}

/// `256^n`.
pub open spec fn pow256(n: nat) -> nat
    decreases n,
{
    if n == 0 {
        1
    } else {
        256 * pow256((n - 1) as nat)
    }
}

/// How many bytes the LEB128 number at `pos` takes: up to and including the
/// first byte without the continuation bit, if that comes within `max`
/// bytes and before the end of `b`.
pub open spec fn leb_len(b: Seq<u8>, pos: int, max: nat) -> Option<nat>
    decreases max,
{
    if max == 0 || pos < 0 || pos >= b.len() {
        None
    } else if b[pos] < 128 {
        Some(1)
    } else {
        match leb_len(b, pos + 1, (max - 1) as nat) {
            Some(n) => Some(n + 1),
            None => None,
        }
    }
}

/// The number made of the low seven bits of the `n` bytes from `pos` on,
/// least significant group first.
pub open spec fn leb_raw(b: Seq<u8>, pos: int, n: nat) -> nat
    decreases n,
{
    if n == 0 {
        0
    } else {
        (b[pos] % 128) as nat + 128 * leb_raw(b, pos + 1, (n - 1) as nat)
    }
}

/// The `n` groups from `pos` on read as a two's-complement number of
/// `7 * n` bits.
pub open spec fn leb_signed(b: Seq<u8>, pos: int, n: nat) -> int {
    let raw = leb_raw(b, pos, n);
    if 2 * raw >= pow2_7(n) {
        raw - pow2_7(n)
    } else {
        raw as int
    }
}

/// What wasmparser's `read_var_u32` reads at `pos`: the number and how many
/// bytes it takes. At most five bytes, the fifth below 16.
pub open spec fn read_u32_at(b: Seq<u8>, pos: int) -> Option<(u32, nat)> {
    match leb_len(b, pos, 5) {
        Some(n) => if n == 5 && b[pos + 4] >= 16 {
            None
        } else {
            Some((leb_raw(b, pos, n) as u32, n))
        },
        None => None,
    }
}

/// What wasmparser's `read_var_i32` reads at `pos`. At most five bytes; in
/// the fifth, the bits above the number's sign bit repeat it.
pub open spec fn read_i32_at(b: Seq<u8>, pos: int) -> Option<(i32, nat)> {
    match leb_len(b, pos, 5) {
        Some(n) => if n == 5 && !(b[pos + 4] < 0x08 || b[pos + 4] >= 0x78) {
            None
        } else {
            Some((leb_signed(b, pos, n) as i32, n))
        },
        None => None,
    }
}

/// What wasmparser's `read_var_i64` reads at `pos`. At most ten bytes; the
/// tenth is 0x00 or 0x7F.
pub open spec fn read_i64_at(b: Seq<u8>, pos: int) -> Option<(i64, nat)> {
    match leb_len(b, pos, 10) {
        Some(n) => if n == 10 && !(b[pos + 9] == 0x00 || b[pos + 9] == 0x7F) {
            None
        } else {
            Some((leb_signed(b, pos, n) as i64, n))
        },
        None => None,
    }
}

/// Relies on wasm-encoder's `Encode` for `u32`, which appends the shortest
/// unsigned LEB128 form.
#[verifier::external_body]
pub(crate) fn write_u32(v: u32, sink: &mut Vec<u8>)
    ensures
        final(sink)@ == old(sink)@ + uleb(v as nat),
{
    v.encode(sink)
}

/// Relies on wasm-encoder's `Encode` for `i32`, which appends the shortest
/// signed LEB128 form.
#[verifier::external_body]
pub(crate) fn write_i32(v: i32, sink: &mut Vec<u8>)
    ensures
        final(sink)@ == old(sink)@ + sleb(v as int),
{
    v.encode(sink)
}

/// Relies on wasm-encoder's `Encode` for `i64`, which appends the shortest
/// signed LEB128 form.
#[verifier::external_body]
pub(crate) fn write_i64(v: i64, sink: &mut Vec<u8>)
    ensures
        final(sink)@ == old(sink)@ + sleb(v as int),
{
    v.encode(sink)
}

/// Relies on wasmparser's `BinaryReader::read_var_u32` on the bytes from
/// `pos` on: the number and how many bytes it read, as `read_u32_at` says;
/// so it reads the shortest form of any `u32` back as that number.
#[verifier::external_body]
pub(crate) fn read_u32(bytes: &[u8], pos: usize) -> (r: Option<(u32, usize)>)
    requires
        pos <= bytes@.len(),
    ensures
        r is Some == read_u32_at(bytes@, pos as int) is Some,
        r is Some ==> r->Some_0.0 == read_u32_at(bytes@, pos as int)->Some_0.0
            && r->Some_0.1 as nat == read_u32_at(bytes@, pos as int)->Some_0.1,
        r is Some ==> 1 <= r->Some_0.1 <= bytes@.len() - pos,
        forall|v: u32| #[trigger] starts_with(bytes@, pos as int, uleb(v as nat))
            ==> r == Some((v, uleb(v as nat).len() as usize)),
{
    let mut reader = wasmparser::BinaryReader::new(&bytes[pos..], 0);
    match reader.read_var_u32() {
        Ok(v) => Some((v, reader.current_position())),
        Err(_) => None,
    }
}

/// Relies on wasmparser's `BinaryReader::read_var_i32` on the bytes from
/// `pos` on: the number and how many bytes it read, as `read_i32_at` says;
/// so it reads the shortest form of any `i32` back as that number.
#[verifier::external_body]
pub(crate) fn read_i32(bytes: &[u8], pos: usize) -> (r: Option<(i32, usize)>)
    requires
        pos <= bytes@.len(),
    ensures
        r is Some == read_i32_at(bytes@, pos as int) is Some,
        r is Some ==> r->Some_0.0 == read_i32_at(bytes@, pos as int)->Some_0.0
            && r->Some_0.1 as nat == read_i32_at(bytes@, pos as int)->Some_0.1,
        r is Some ==> 1 <= r->Some_0.1 <= bytes@.len() - pos,
        forall|v: i32| #[trigger] starts_with(bytes@, pos as int, sleb(v as int))
            ==> r == Some((v, sleb(v as int).len() as usize)),
{
    let mut reader = wasmparser::BinaryReader::new(&bytes[pos..], 0);
    match reader.read_var_i32() {
        Ok(v) => Some((v, reader.current_position())),
        Err(_) => None,
    }
}

/// Relies on wasmparser's `BinaryReader::read_var_i64` on the bytes from
/// `pos` on: the number and how many bytes it read, as `read_i64_at` says;
/// so it reads the shortest form of any `i64` back as that number.
#[verifier::external_body]
pub(crate) fn read_i64(bytes: &[u8], pos: usize) -> (r: Option<(i64, usize)>)
    requires
        pos <= bytes@.len(),
    ensures
        r is Some == read_i64_at(bytes@, pos as int) is Some,
        r is Some ==> r->Some_0.0 == read_i64_at(bytes@, pos as int)->Some_0.0
            && r->Some_0.1 as nat == read_i64_at(bytes@, pos as int)->Some_0.1,
        r is Some ==> 1 <= r->Some_0.1 <= bytes@.len() - pos,
        forall|v: i64| #[trigger] starts_with(bytes@, pos as int, sleb(v as int))
            ==> r == Some((v, sleb(v as int).len() as usize)),
{
    let mut reader = wasmparser::BinaryReader::new(&bytes[pos..], 0);
    match reader.read_var_i64() {
        Ok(v) => Some((v, reader.current_position())),
        Err(_) => None,
    }
}

/// Appends the `n` low bytes of `v`, least significant first.
pub fn write_le(v: u128, n: usize, sink: &mut Vec<u8>)
    requires
        n <= 16,
    ensures
        final(sink)@ == old(sink)@ + le_bytes(v as nat, n as nat),
{
    let mut rest: u128 = v;
    let mut i: usize = 0;
    while i < n
        invariant
            i <= n,
            sink@ + le_bytes(rest as nat, (n - i) as nat) == old(sink)@ + le_bytes(v as nat, n as nat),
        decreases n - i,
    {
        let ghost before = sink@;
        sink.push((rest % 256) as u8);
        assert(le_bytes(rest as nat, (n - i) as nat) =~= seq![(rest % 256) as u8] + le_bytes(
            (rest / 256) as nat,
            (n - i - 1) as nat,
        ));
        assert(sink@ + le_bytes((rest / 256) as nat, (n - i - 1) as nat) =~= before + le_bytes(
            rest as nat,
            (n - i) as nat,
        ));
        rest = rest / 256;
        i += 1;
    }
    assert(le_bytes(rest as nat, 0) =~= Seq::<u8>::empty());
    assert(sink@ =~= sink@ + le_bytes(rest as nat, 0));
}

/// The number whose `n` bytes from `pos` on are stored least significant
/// first.
pub fn read_le(bytes: &[u8], pos: usize, n: usize) -> (r: u128)
    requires
        n <= 16,
        pos + n <= bytes@.len(),
    ensures
        r as nat == le_value(bytes@.subrange(pos as int, pos + n)),
        (r as nat) < pow256(n as nat),
{
    let len = bytes.len();
    let mut r: u128 = 0;
    let mut i: usize = n;
    proof {
        lemma_le_value_bound(bytes@.subrange(pos as int, pos + n));
    }
    while i > 0
        invariant
            i <= n <= 16,
            pos + n <= bytes@.len(),
            bytes@.len() == len,
            r as nat == le_value(bytes@.subrange(pos + i, pos + n)),
            le_value(bytes@.subrange(pos + i, pos + n)) < pow256((n - i) as nat),
        decreases i,
    {
        let ghost tail = bytes@.subrange(pos + i, pos + n);
        let ghost cur = bytes@.subrange(pos + i - 1, pos + n);
        assert(cur.skip(1) =~= tail);
        assert(cur[0] == bytes@[pos + i - 1]);
        proof {
            lemma_pow256_bound((n - i) as nat);
            lemma_le_value_bound(cur);
            assert(r * 256 + 255 < pow256(16)) by (nonlinear_arith)
                requires
                    r < pow256((n - i) as nat),
                    pow256((n - i) as nat) <= pow256(15),
                    pow256(16) == 256 * pow256(15),
            ;
        }
        r = r * 256 + bytes[pos + i - 1] as u128;
        i -= 1;
    }
    r
}

/// `256^n` grows with `n`, up to `256^16 = 2^128`.
pub proof fn lemma_pow256_bound(n: nat)
    requires
        n <= 15,
    ensures
        pow256(n) <= pow256(15),
        pow256(16) == 256 * pow256(15),
        pow256(16) == 0x1_0000_0000_0000_0000_0000_0000_0000_0000,
    decreases 15 - n,
{
    reveal_with_fuel(pow256, 17);
    if n < 15 {
        lemma_pow256_bound(n + 1);
    }
}

/// The value of `n` little-endian bytes is below `256^n`.
pub proof fn lemma_le_value_bound(b: Seq<u8>)
    ensures
        le_value(b) < pow256(b.len()),
    decreases b.len(),
{
    if b.len() > 0 {
        lemma_le_value_bound(b.skip(1));
        assert(b[0] as nat + 256 * le_value(b.skip(1)) < pow256(b.len())) by (nonlinear_arith)
            requires
                b[0] < 256,
                le_value(b.skip(1)) < pow256((b.len() - 1) as nat),
                pow256(b.len()) == 256 * pow256((b.len() - 1) as nat),
        ;
    }
}

/// The byte at `pos` is the first of what starts there.
pub proof fn lemma_first_byte(b: Seq<u8>, pos: int, s: Seq<u8>)
    requires
        starts_with(b, pos, s),
        s.len() >= 1,
    ensures
        b[pos] == s[0],
{
    assert(b.subrange(pos, pos + s.len())[0] == b[pos]);
}

/// What follows a first byte starts one byte later.
pub proof fn lemma_rest(b: Seq<u8>, pos: int, x: u8, s: Seq<u8>)
    requires
        starts_with(b, pos, seq![x] + s),
    ensures
        starts_with(b, pos + 1, s),
{
    let whole = b.subrange(pos, pos + 1 + s.len());
    assert(whole == seq![x] + s);
    assert(b.subrange(pos + 1, pos + 1 + s.len()) =~= whole.subrange(1, 1 + s.len() as int));
    assert(whole.subrange(1, 1 + s.len() as int) =~= s);
}

/// Two signed LEB128 forms that both start at `pos` are of the same number.
pub proof fn lemma_sleb_unique(b: Seq<u8>, pos: int, x: int, y: int)
    requires
        starts_with(b, pos, sleb(x)),
        starts_with(b, pos, sleb(y)),
    ensures
        x == y,
    decreases (if x < 0 { -x } else { x }),
{
    lemma_sleb_nonempty(x);
    lemma_sleb_nonempty(y);
    lemma_first_byte(b, pos, sleb(x));
    lemma_first_byte(b, pos, sleb(y));
    let sx = -64 <= x < 64;
    let sy = -64 <= y < 64;
    if sx && sy {
        assert(x % 128 == y % 128);
    } else if !sx && !sy {
        assert(x % 128 == y % 128);
        lemma_rest(b, pos, (x % 128 + 128) as u8, sleb(x / 128));
        lemma_rest(b, pos, (y % 128 + 128) as u8, sleb(y / 128));
        lemma_sleb_unique(b, pos + 1, x / 128, y / 128);
    } else {
        assert(false);
    }
}

/// Two unsigned LEB128 forms that both start at `pos` are of the same number.
pub proof fn lemma_uleb_unique(b: Seq<u8>, pos: int, x: nat, y: nat)
    requires
        starts_with(b, pos, uleb(x)),
        starts_with(b, pos, uleb(y)),
    ensures
        x == y,
    decreases x,
{
    lemma_uleb_nonempty(x);
    lemma_uleb_nonempty(y);
    lemma_first_byte(b, pos, uleb(x));
    lemma_first_byte(b, pos, uleb(y));
    if x < 128 && y < 128 {
    } else if x >= 128 && y >= 128 {
        assert(x % 128 == y % 128);
        lemma_rest(b, pos, (x % 128 + 128) as u8, uleb(x / 128));
        lemma_rest(b, pos, (y % 128 + 128) as u8, uleb(y / 128));
        lemma_uleb_unique(b, pos + 1, x / 128, y / 128);
    } else {
        assert(false);
    }
}

/// Two values below `256^n` with the same `n` little-endian bytes are equal.
pub proof fn lemma_le_unique(x: nat, y: nat, n: nat)
    requires
        x < pow256(n),
        y < pow256(n),
        le_bytes(x, n) == le_bytes(y, n),
    ensures
        x == y,
{
    lemma_le_round_trip(x, n);
    lemma_le_round_trip(y, n);
}

/// How many bytes the unsigned LEB128 form of `v` takes.
pub fn uleb_len(v: u64) -> (r: usize)
    ensures
        r == uleb(v as nat).len(),
{
    let mut cur = v;
    let mut r: usize = 1;
    proof {
        lemma_uleb_nonempty(v as nat);
        assert(pow2_7(0) == 1);
        assert(v as nat * pow2_7(0) <= v as nat) by (nonlinear_arith)
            requires
                pow2_7(0) == 1,
        ;
    }
    while cur >= 128
        invariant
            1 <= r <= 10,
            cur <= v,
            (r - 1) + uleb(cur as nat).len() == uleb(v as nat).len(),
            cur as nat * pow2_7((r - 1) as nat) <= v as nat,
        decreases cur,
    {
        assert(uleb(cur as nat).len() == 1 + uleb((cur / 128) as nat).len());
        proof {
            assert(pow2_7(r as nat) == 128 * pow2_7((r - 1) as nat));
            assert((cur / 128) as nat * pow2_7(r as nat) <= v as nat) by (nonlinear_arith)
                requires
                    cur as nat * pow2_7((r - 1) as nat) <= v as nat,
                    pow2_7(r as nat) == 128 * pow2_7((r - 1) as nat),
                    cur >= 128,
            ;
            assert(pow2_7(r as nat) <= v as nat) by (nonlinear_arith)
                requires
                    cur as nat * pow2_7((r - 1) as nat) <= v as nat,
                    pow2_7(r as nat) == 128 * pow2_7((r - 1) as nat),
                    cur >= 128,
            ;
            if r >= 10 {
                lemma_pow2_7_big(r as nat);
            }
        }
        cur = cur / 128;
        r += 1;
    }
    assert(uleb(cur as nat).len() == 1);
    r
}

/// `128^n`.
pub open spec fn pow2_7(n: nat) -> nat
    decreases n,
{
    if n == 0 {
        1
    } else {
        128 * pow2_7((n - 1) as nat)
    }
}

/// `128^10` exceeds every `u64`, so no `u64` has more than ten groups.
proof fn lemma_pow2_7_big(n: nat)
    requires
        n >= 10,
    ensures
        pow2_7(n) > u64::MAX,
    decreases n,
{
    reveal_with_fuel(pow2_7, 11);
    if n > 10 {
        lemma_pow2_7_big((n - 1) as nat);
        assert(pow2_7(n) == 128 * pow2_7((n - 1) as nat));
    }
}

} // verus!
