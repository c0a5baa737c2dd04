//! The fingerprint that keys the build cache: a 64-bit FNV-1a hash over the
//! compiler invocation and every source file the build read.
use vstd::prelude::*;
use vstd::string::StringSliceAdditionalSpecFns;
use vstd::arithmetic::div_mod::{lemma_mod_multiples_vanish, lemma_mul_mod_noop_left, lemma_small_mod};
use vstd::seq_lib::lemma_flatten_concat;

use crate::text::{
    chars_of, is_white_space, same_chars, string_of, trim, trim_chars, trim_end, trim_start,
};

verus! {

/// The FNV-1a offset basis, the hash of nothing.
pub const FNV_OFFSET: u64 = 0xcbf2_9ce4_8422_2325;

/// The 64-bit FNV prime.
pub const FNV_PRIME: u64 = 0x0000_0100_0000_01b3;

/// The hash after one more byte: the byte is xored in, then the hash is
/// multiplied by the prime, wrapping around.
pub open spec fn fnv_step(hash: u64, byte: u8) -> u64 {
    (hash ^ (byte as u64)).wrapping_mul(FNV_PRIME)
}

/// The hash after `bytes`, starting from `hash`.
pub open spec fn fnv_extend(hash: u64, bytes: Seq<u8>) -> u64
    decreases bytes.len(),
{
    if bytes.len() == 0 {
        hash
    } else {
        fnv_step(fnv_extend(hash, bytes.drop_last()), bytes.last())
    }
}

/// Hashing two pieces one after the other is hashing them joined, so the
/// fingerprint does not depend on how its input is cut into pieces.
pub proof fn lemma_fnv_extend_concat(hash: u64, a: Seq<u8>, b: Seq<u8>)
    ensures
        fnv_extend(hash, a + b) == fnv_extend(fnv_extend(hash, a), b),
    decreases b.len(),
{
    if b.len() == 0 {
        assert(a + b == a);
    } else {
        assert((a + b).drop_last() == a + b.drop_last());
        lemma_fnv_extend_concat(hash, a, b.drop_last());
    }
}

/// Feed `bytes` into `hash`.
pub fn hash_bytes(hash: &mut u64, bytes: &[u8])
    ensures
        *final(hash) == fnv_extend(*old(hash), bytes@),
{
    let ghost start = *hash;
    for i in 0..bytes.len()
        invariant
            *hash == fnv_extend(start, bytes@.take(i as int)),
    {
        assert(bytes@.take(i + 1).drop_last() == bytes@.take(i as int));
        assert(bytes@.take(i + 1).last() == bytes@[i as int]);
        *hash = (*hash ^ (bytes[i] as u64)).wrapping_mul(FNV_PRIME);
    }
    assert(bytes@.take(bytes.len() as int) == bytes@);
}

/// The hash after each input, as its path's bytes and then its contents.
pub open spec fn fnv_inputs(hash: u64, inputs: Seq<(Seq<u8>, Seq<u8>)>) -> u64
    decreases inputs.len(),
{
    if inputs.len() == 0 {
        hash
    } else {
        let (path, contents) = inputs.last();
        fnv_extend(fnv_extend(fnv_inputs(hash, inputs.drop_last()), path), contents)
    }
}

/// The byte sequences held by a vector of (path, contents) pairs.
pub open spec fn inputs_view(inputs: Seq<(Vec<u8>, Vec<u8>)>) -> Seq<(Seq<u8>, Seq<u8>)> {
    inputs.map_values(|p: (Vec<u8>, Vec<u8>)| (p.0@, p.1@))
}

/// The fingerprint of a build: the hash of the compiler invocation's text,
/// then of each input's path bytes and contents, in order.
pub open spec fn build_fingerprint(signature: Seq<u8>, inputs: Seq<(Seq<u8>, Seq<u8>)>) -> u64 {
    fnv_inputs(fnv_extend(FNV_OFFSET, signature), inputs)
}

/// The fingerprint of a build whose compiler invocation is described by
/// `signature` and which read `inputs`, each given as its path's bytes and
/// its contents.
pub fn fingerprint(signature: &str, inputs: &Vec<(Vec<u8>, Vec<u8>)>) -> (h: u64)
    ensures
        h == build_fingerprint(signature.spec_bytes(), inputs_view(inputs@)),
{
    let mut hash = FNV_OFFSET;
    hash_bytes(&mut hash, signature.as_bytes());
    let ghost base = hash;
    for i in 0..inputs.len()
        invariant
            base == fnv_extend(FNV_OFFSET, signature.spec_bytes()),
            hash == fnv_inputs(base, inputs_view(inputs@).take(i as int)),
    {
        let ghost all = inputs_view(inputs@);
        assert(all.take(i + 1).drop_last() == all.take(i as int));
        assert(all.take(i + 1).last() == all[i as int]);
        hash_bytes(&mut hash, inputs[i].0.as_slice());
        hash_bytes(&mut hash, inputs[i].1.as_slice());
    }
    assert(inputs_view(inputs@).take(inputs.len() as int) == inputs_view(inputs@));
    hash
}

/// The bytes that the inputs feed into the hash: each input's path, then
/// its contents, in order.
pub open spec fn input_stream(inputs: Seq<(Seq<u8>, Seq<u8>)>) -> Seq<u8> {
    inputs.flat_map(|p: (Seq<u8>, Seq<u8>)| p.0 + p.1)
}

proof fn lemma_fnv_inputs_stream(hash: u64, inputs: Seq<(Seq<u8>, Seq<u8>)>)
    ensures
        fnv_inputs(hash, inputs) == fnv_extend(hash, input_stream(inputs)),
    decreases inputs.len(),
{
    let f = |p: (Seq<u8>, Seq<u8>)| p.0 + p.1;
    if inputs.len() == 0 {
        assert(input_stream(inputs) =~= Seq::<u8>::empty());
    } else {
        let rest = inputs.drop_last();
        let (path, contents) = inputs.last();
        lemma_fnv_inputs_stream(hash, rest);
        rest.lemma_flat_map_push(f, inputs.last());
        assert(rest.push(inputs.last()) == inputs);
        lemma_fnv_extend_concat(hash, input_stream(rest), path + contents);
        lemma_fnv_extend_concat(fnv_extend(hash, input_stream(rest)), path, contents);
    }
}

/// The fingerprint is the FNV-1a hash of one stream of bytes: the compiler
/// invocation's text, then every input's path and contents, in order.
pub proof fn lemma_fingerprint_hashes_every_byte(
    signature: Seq<u8>,
    inputs: Seq<(Seq<u8>, Seq<u8>)>,
)
    ensures
        build_fingerprint(signature, inputs) == fnv_extend(
            FNV_OFFSET,
            signature + input_stream(inputs),
        ),
{
    lemma_fnv_inputs_stream(fnv_extend(FNV_OFFSET, signature), inputs);
    lemma_fnv_extend_concat(FNV_OFFSET, signature, input_stream(inputs));
}

/// Multiplying by the FNV prime, modulo `2^64`, is undone by multiplying by
/// its inverse: the prime is odd.
proof fn lemma_prime_product_recovers(x: int)
    requires
        0 <= x < 0x1_0000_0000_0000_0000,
    ensures
        ((x * (FNV_PRIME as int)) % 0x1_0000_0000_0000_0000) * 0xce96_5057_aff6_957b
            % 0x1_0000_0000_0000_0000 == x,
{
    let m: int = 0x1_0000_0000_0000_0000;
    let p: int = FNV_PRIME as int;
    let q: int = 0xce96_5057_aff6_957b;
    let k: int = 887285111055;
    assert(p * q == 1 + k * m);
    lemma_mul_mod_noop_left(x * p, q, m);
    assert(x * p * q == m * (x * k) + x) by (nonlinear_arith)
        requires
            p * q == 1 + k * m,
    ;
    lemma_mod_multiples_vanish(x * k, x, m);
    lemma_small_mod(x as nat, m as nat);
}

/// One step of the hash is one-to-one in the hash for a fixed byte, and in
/// the byte for a fixed hash.
proof fn lemma_fnv_step_injective(h1: u64, b1: u8, h2: u64, b2: u8)
    requires
        fnv_step(h1, b1) == fnv_step(h2, b2),
        h1 == h2 || b1 == b2,
    ensures
        h1 == h2 && b1 == b2,
{
    let x1: u64 = h1 ^ (b1 as u64);
    let x2: u64 = h2 ^ (b2 as u64);
    lemma_prime_product_recovers(x1 as int);
    lemma_prime_product_recovers(x2 as int);
    assert(x1 == x2);
    let c1: u64 = b1 as u64;
    let c2: u64 = b2 as u64;
    if h1 == h2 {
        assert(c1 == c2) by (bit_vector)
            requires
                (h1 ^ c1) == (h2 ^ c2),
                h1 == h2,
        ;
    } else {
        assert(h1 == h2) by (bit_vector)
            requires
                (h1 ^ c1) == (h2 ^ c2),
                c1 == c2,
        ;
    }
}

/// Hashing the same bytes from two different hashes ends in two different
/// hashes.
proof fn lemma_fnv_extend_keeps_apart(h1: u64, h2: u64, bytes: Seq<u8>)
    requires
        h1 != h2,
    ensures
        fnv_extend(h1, bytes) != fnv_extend(h2, bytes),
    decreases bytes.len(),
{
    if bytes.len() > 0 {
        lemma_fnv_extend_keeps_apart(h1, h2, bytes.drop_last());
        if fnv_extend(h1, bytes) == fnv_extend(h2, bytes) {
            lemma_fnv_step_injective(
                fnv_extend(h1, bytes.drop_last()),
                bytes.last(),
                fnv_extend(h2, bytes.drop_last()),
                bytes.last(),
            );
        }
    }
}

/// Two byte streams that differ in one byte only hash differently.
proof fn lemma_fnv_one_byte_apart(hash: u64, before: Seq<u8>, x: u8, y: u8, after: Seq<u8>)
    requires
        x != y,
    ensures
        fnv_extend(hash, before + seq![x] + after) != fnv_extend(hash, before + seq![y] + after),
{
    let h = fnv_extend(hash, before);
    assert((before + seq![x]).drop_last() == before);
    assert((before + seq![y]).drop_last() == before);
    if fnv_extend(hash, before + seq![x]) == fnv_extend(hash, before + seq![y]) {
        lemma_fnv_step_injective(h, x, h, y);
    }
    lemma_fnv_extend_keeps_apart(
        fnv_extend(hash, before + seq![x]),
        fnv_extend(hash, before + seq![y]),
        after,
    );
    lemma_fnv_extend_concat(hash, before + seq![x], after);
    lemma_fnv_extend_concat(hash, before + seq![y], after);
}

/// The stream of the inputs around the one at `i`.
proof fn lemma_input_stream_split(inputs: Seq<(Seq<u8>, Seq<u8>)>, i: int)
    requires
        0 <= i < inputs.len(),
    ensures
        input_stream(inputs) == input_stream(inputs.take(i)) + (inputs[i].0 + inputs[i].1)
            + input_stream(inputs.skip(i + 1)),
{
    let f = |p: (Seq<u8>, Seq<u8>)| p.0 + p.1;
    let a = inputs.take(i);
    let b = seq![inputs[i]];
    let c = inputs.skip(i + 1);
    assert(inputs =~= a + b + c);
    assert((a + b + c).map_values(f) =~= a.map_values(f) + b.map_values(f) + c.map_values(f));
    lemma_flatten_concat(a.map_values(f) + b.map_values(f), c.map_values(f));
    lemma_flatten_concat(a.map_values(f), b.map_values(f));
    b.map_values(f).lemma_flatten_one_element();
}

/// A change of one byte in the contents of any input, whichever input it
/// is, changes the fingerprint.
pub proof fn lemma_one_byte_edit_changes_fingerprint(
    signature: Seq<u8>,
    inputs: Seq<(Seq<u8>, Seq<u8>)>,
    i: int,
    j: int,
    byte: u8,
)
    requires
        0 <= i < inputs.len(),
        0 <= j < inputs[i].1.len(),
        inputs[i].1[j] != byte,
    ensures
        build_fingerprint(
            signature,
            inputs.update(i, (inputs[i].0, inputs[i].1.update(j, byte))),
        ) != build_fingerprint(signature, inputs),
{
    let (path, contents) = inputs[i];
    let edited = inputs.update(i, (path, contents.update(j, byte)));
    lemma_input_stream_split(inputs, i);
    lemma_input_stream_split(edited, i);
    assert(edited.take(i) =~= inputs.take(i));
    assert(edited.skip(i + 1) =~= inputs.skip(i + 1));
    let before = signature + input_stream(inputs.take(i)) + path + contents.take(j);
    let after = contents.skip(j + 1) + input_stream(inputs.skip(i + 1));
    assert(signature + input_stream(inputs) =~= before + seq![contents[j]] + after);
    assert(signature + input_stream(edited) =~= before + seq![byte] + after);
    lemma_fingerprint_hashes_every_byte(signature, inputs);
    lemma_fingerprint_hashes_every_byte(signature, edited);
    lemma_fnv_one_byte_apart(FNV_OFFSET, before, byte, contents[j], after);
}

/// The lowercase hexadecimal digit for `d`.
pub open spec fn hex_char(d: int) -> char {
    if d < 10 {
        (('0' as int) + d) as char
    } else {
        (('a' as int) + d - 10) as char
    }
}

/// The last `width` hexadecimal digits of `value`, zero-padded.
pub open spec fn hex_digits(value: nat, width: nat) -> Seq<char>
    decreases width,
{
    if width == 0 {
        Seq::empty()
    } else {
        hex_digits(value / 16, (width - 1) as nat).push(hex_char((value % 16) as int))
    }
}

fn hex_digit(d: u64) -> (c: char)
    requires
        d < 16,
    ensures
        c == hex_char(d as int),
{
    let digits: [char; 16] = [
        '0', '1', '2', '3', '4', '5', '6', '7', '8', '9', 'a', 'b', 'c', 'd', 'e', 'f',
    ];
    let c = digits[d as usize];
    assert(c == hex_char(d as int)) by {
        assert(digits@ == seq!['0', '1', '2', '3', '4', '5', '6', '7', '8', '9', 'a', 'b', 'c', 'd', 'e', 'f']);
    }
    c
}

fn hex_digits_exec(value: u64, width: usize) -> (r: Vec<char>)
    ensures
        r@ == hex_digits(value as nat, width as nat),
    decreases width,
{
    if width == 0 {
        Vec::new()
    } else {
        let mut r = hex_digits_exec(value / 16, width - 1);
        r.push(hex_digit(value % 16));
        r
    }
}

/// The text a fingerprint is stored as: 16 lowercase hexadecimal digits.
pub fn fingerprint_text(value: u64) -> (r: String)
    ensures
        r@ == hex_digits(value as nat, 16),
{
    let digits = hex_digits_exec(value, 16);
    string_of(&digits)
}

/// Whether a stored fingerprint, with whitespace around it, is `current`.
pub fn fingerprint_matches(stored: &str, current: u64) -> (r: bool)
    ensures
        r == (trim(stored@) == hex_digits(current as nat, 16)),
{
    let stored_chars = chars_of(stored);
    let trimmed = trim_chars(&stored_chars);
    let expected = hex_digits_exec(current, 16);
    same_chars(&trimmed, &expected)
}

/// `16` to the power `n`.
pub open spec fn pow16(n: nat) -> nat
    decreases n,
{
    if n == 0 {
        1
    } else {
        16 * pow16((n - 1) as nat)
    }
}

proof fn lemma_hex_char_injective(a: int, b: int)
    requires
        0 <= a < 16,
        0 <= b < 16,
        hex_char(a) == hex_char(b),
    ensures
        a == b,
{
}

proof fn lemma_hex_char_not_white_space(d: int)
    requires
        0 <= d < 16,
    ensures
        !is_white_space(hex_char(d)),
{
}

/// Different numbers below `16^width` have different digits.
proof fn lemma_hex_digits_injective(v: nat, w: nat, width: nat)
    requires
        v < pow16(width),
        w < pow16(width),
        hex_digits(v, width) == hex_digits(w, width),
    ensures
        v == w,
    decreases width,
{
    if width > 0 {
        let p = pow16((width - 1) as nat);
        let dv = hex_digits(v, width);
        let dw = hex_digits(w, width);
        assert(dv.last() == hex_char((v % 16) as int));
        assert(dw.last() == hex_char((w % 16) as int));
        lemma_hex_char_injective((v % 16) as int, (w % 16) as int);
        assert(dv.drop_last() == hex_digits(v / 16, (width - 1) as nat));
        assert(dw.drop_last() == hex_digits(w / 16, (width - 1) as nat));
        assert(v / 16 < p) by (nonlinear_arith)
            requires
                v < 16 * p,
        ;
        assert(w / 16 < p) by (nonlinear_arith)
            requires
                w < 16 * p,
        ;
        lemma_hex_digits_injective(v / 16, w / 16, (width - 1) as nat);
        assert(v == 16 * (v / 16) + v % 16) by (nonlinear_arith);
        assert(w == 16 * (w / 16) + w % 16) by (nonlinear_arith);
    } else {
        assert(v == 0 && w == 0);
    }
}

/// Hexadecimal digits are never whitespace.
proof fn lemma_hex_digits_shape(v: nat, width: nat)
    ensures
        hex_digits(v, width).len() == width,
        forall|i: int| 0 <= i < width ==> !is_white_space(#[trigger] hex_digits(v, width)[i]),
    decreases width,
{
    if width > 0 {
        lemma_hex_digits_shape(v / 16, (width - 1) as nat);
        lemma_hex_char_not_white_space((v % 16) as int);
    }
}

/// What the cache stores for a fingerprint reads back as that fingerprint
/// and no other: the stored text, a line holding [`fingerprint_text`],
/// matches exactly the fingerprint it was written for.
pub proof fn lemma_stored_fingerprint_round_trip(written: u64, current: u64)
    ensures
        (trim(hex_digits(written as nat, 16).push('\n')) == hex_digits(current as nat, 16)) <==> (
        written == current),
{
    let digits = hex_digits(written as nat, 16);
    lemma_hex_digits_shape(written as nat, 16);
    lemma_hex_digits_shape(current as nat, 16);
    let stored = digits.push('\n');
    assert(stored.drop_last() == digits);
    assert(is_white_space(stored.last()));
    assert(trim_end(stored) == trim_end(digits));
    assert(!is_white_space(digits.last()));
    assert(trim_end(digits) == digits);
    assert(!is_white_space(digits[0]));
    assert(trim_start(digits) == digits);
    assert(pow16(16) == 0x1_0000_0000_0000_0000) by {
        reveal_with_fuel(pow16, 17);
    }
    if trim(stored) == hex_digits(current as nat, 16) {
        lemma_hex_digits_injective(written as nat, current as nat, 16);
    }
}

} // verus!
