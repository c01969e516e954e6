//! Names of cached thumbnails, and the pace of their generation.
//!
//! A thumbnail is decoded once into `<thumbs_dir>/<hash>.png`; the name comes
//! from a 64-bit FNV-1a hash of the entry's identifier, stable across
//! compiler versions, so cached names never change.

use vstd::prelude::*;

use crate::config::{join_path, path_join};
use vstd::utf8::encode_utf8;

verus! {

broadcast use vstd::string::group_string_axioms;

pub const FNV_OFFSET: u64 = 0xcbf2_9ce4_8422_2325;

pub const FNV_PRIME: u64 = 0x0000_0100_0000_01b3;

/// 64-bit FNV-1a over a byte sequence.
pub open spec fn fnv1a_spec(b: Seq<u8>) -> u64
    decreases b.len(),
{
    if b.len() == 0 {
        FNV_OFFSET
    } else {
        let h = fnv1a_spec(b.drop_last()) ^ (b.last() as u64);
        ((h as int * FNV_PRIME as int) % 0x1_0000_0000_0000_0000) as u64
    }
}

/// 64-bit FNV-1a over the UTF-8 bytes of a string.
pub fn fnv1a(s: &str) -> (h: u64)
    ensures
        h == fnv1a_spec(encode_utf8(s@)),
{
    let bytes = s.as_bytes();
    let mut h: u64 = FNV_OFFSET;
    let mut i: usize = 0;
    while i < bytes.len()
        invariant
            i <= bytes@.len(),
            bytes@ == encode_utf8(s@),
            h == fnv1a_spec(bytes@.take(i as int)),
        decreases bytes@.len() - i,
    {
        let b = bytes[i];
        let x = h ^ (b as u64);
        let next = x.wrapping_mul(FNV_PRIME);
        proof {
            let t = bytes@.take(i + 1 as int);
            assert(t.drop_last() =~= bytes@.take(i as int));
            assert(t.last() == b);
            assert(next == ((x as int * FNV_PRIME as int) % 0x1_0000_0000_0000_0000) as u64);
        }
        h = next;
        i = i + 1;
    }
    assert(bytes@.take(bytes@.len() as int) =~= bytes@);
    h
}

/// A lowercase hexadecimal digit.
pub open spec fn hex_digit(d: nat) -> char {
    if d < 10 {
        ((d + 48) as u8) as char
    } else {
        ((d + 87) as u8) as char
    }
}

/// The last `n` hexadecimal digits of `v`, zero-padded (`{:0nx}` for `v < 16^n`).
pub open spec fn hex_fixed(v: nat, n: nat) -> Seq<char>
    decreases n,
{
    if n == 0 {
        Seq::empty()
    } else {
        hex_fixed(v / 16, (n - 1) as nat).push(hex_digit(v % 16))
    }
}

/// The file name of an identifier's thumbnail: the 16 hexadecimal digits of
/// its hash, then `.png`.
pub open spec fn hash_id_spec(id: Seq<char>) -> Seq<char> {
    hex_fixed(fnv1a_spec(encode_utf8(id)) as nat, 16) + ".png"@
}

/// The file name of an identifier's thumbnail, without the folder.
pub fn hash_id(id: &str) -> (r: String)
    ensures
        r@ == hash_id_spec(id@),
        r@.len() == 20,
{
    let h = fnv1a(id);
    let mut v: u64 = h;
    let mut digits: Vec<char> = Vec::new();
    let mut n: usize = 0;
    while n < 16
        invariant
            n <= 16,
            hex_fixed(h as nat, 16) == hex_fixed(v as nat, (16 - n) as nat) + digits@,
            digits@.len() == n,
        decreases 16 - n,
    {
        let d: u8 = (v % 16) as u8;
        let c: char = if d < 10 {
            (d + 48) as char
        } else {
            (d + 87) as char
        };
        assert(c == hex_digit((v % 16) as nat));
        let ghost old_digits = digits@;
        digits.insert(0, c);
        assert(hex_fixed(v as nat, (16 - n) as nat) == hex_fixed((v / 16) as nat, (16 - n - 1) as nat).push(c));
        assert(hex_fixed((v / 16) as nat, (16 - n - 1) as nat).push(c) + old_digits =~= hex_fixed(
            (v / 16) as nat,
            (16 - n - 1) as nat,
        ) + digits@);
        v = v / 16;
        n = n + 1;
    }
    assert(hex_fixed(v as nat, 0) =~= Seq::<char>::empty());
    assert(digits@ =~= hex_fixed(h as nat, 16));
    let ext = crate::text::chars_of(".png");
    proof {
        reveal_strlit(".png");
    }
    crate::text::append_chars(&mut digits, ext.as_slice());
    crate::text::string_of(digits.as_slice())
}

/// The cached thumbnail of an identifier, inside the thumbnails folder.
pub fn thumb_path(thumbs_dir: &str, id: &str) -> (r: String)
    ensures
        r@ == path_join(thumbs_dir@, hash_id_spec(id@)),
{
    let name = hash_id(id);
    join_path(thumbs_dir, name.as_str())
}

/// Whether the display is refreshed after `done` of `total` thumbnails:
/// every eighth one, and the last one.
pub fn progress_due(done: usize, total: usize) -> (r: bool)
    ensures
        r == (done % 8 == 0 || done == total),
{
    done % 8 == 0 || done == total
}

/// How many threads generate thumbnails: the available parallelism (4 when
/// unknown), at most 8.
pub fn worker_count(available: Option<usize>) -> (r: usize)
    ensures
        r == (match available {
            Some(n) => if n < 8 {
                n
            } else {
                8
            },
            None => 4,
        }),
{
    let n = match available {
        Some(n) => n,
        None => 4,
    };
    if n < 8 {
        n
    } else {
        8
    }
}

} // verus!
