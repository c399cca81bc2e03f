//! Crash signatures, and the names of the files in which test cases and
//! crashes are kept.

use vstd::prelude::*;
use vstd::string::StringExecFns;
use crate::common::{join_path, joined};

verus! {

/// The hash of the bytes of an input.
pub uninterp spec fn content_hash(bytes: Seq<u8>) -> u64;

/// `hash_std` of libafl_bolts: the 64-bit hash of a byte string. The same bytes
/// give the same hash.
#[verifier::external_body]
fn hash_bytes(bytes: &Vec<u8>) -> (hash: u64)
    ensures
        hash == content_hash(bytes@),
{
    libafl_bolts::hash_std(bytes)
}

/// The return addresses of a backtrace folded into one number: all but the
/// innermost frame, combined bit by bit with exclusive or.
pub open spec fn folded(frames: Seq<u64>) -> u64
    decreases frames.len(),
{
    if frames.len() <= 1 {
        0
    } else {
        folded(frames.drop_last()) ^ frames.last()
    }
}

/// The signature of a crash from the frames of its backtrace, innermost
/// first. The innermost frame, which belongs to the capture itself, is left
/// out. Without any frame the signature is 0.
pub fn crash_signature(frames: &Vec<u64>) -> (signature: u64)
    ensures
        signature == folded(frames@),
{
    if frames.len() == 0 {
        return 0;
    }
    let mut hash: u64 = 0;
    let mut i: usize = 1;
    assert(frames@.take(1).len() == 1);
    while i < frames.len()
        invariant
            1 <= i <= frames@.len(),
            hash == folded(frames@.take(i as int)),
        decreases frames@.len() - i,
    {
        assert(frames@.take(i + 1).drop_last() =~= frames@.take(i as int));
        hash = hash ^ frames[i];
        i = i + 1;
    }
    assert(frames@.take(i as int) =~= frames@);
    hash
}

/// The signature of a crash: that of its backtrace where one was captured,
/// and the crashing program counter otherwise.
pub fn signature_or_counter(frames: Option<&Vec<u64>>, program_counter: u64) -> (signature: u64)
    ensures
        signature == (match frames {
            Some(f) => folded(f@),
            None => program_counter,
        }),
{
    match frames {
        Some(f) => crash_signature(f),
        None => program_counter,
    }
}

/// The hexadecimal digit for a value below 16.
pub open spec fn hex_digit(v: u64) -> char {
    if v == 0 {
        '0'
    } else if v == 1 {
        '1'
    } else if v == 2 {
        '2'
    } else if v == 3 {
        '3'
    } else if v == 4 {
        '4'
    } else if v == 5 {
        '5'
    } else if v == 6 {
        '6'
    } else if v == 7 {
        '7'
    } else if v == 8 {
        '8'
    } else if v == 9 {
        '9'
    } else if v == 10 {
        'a'
    } else if v == 11 {
        'b'
    } else if v == 12 {
        'c'
    } else if v == 13 {
        'd'
    } else if v == 14 {
        'e'
    } else {
        'f'
    }
}

/// The `i`-th of the 16 hexadecimal digits of `value`, most significant
/// first.
pub open spec fn hex_at(value: u64, i: int) -> char {
    hex_digit((value >> ((60 - 4 * i) as u64)) & 0xf)
}

/// `value` in 16 hexadecimal digits, lower case, with leading zeros.
pub open spec fn hex16(value: u64) -> Seq<char> {
    Seq::new(16, |i: int| hex_at(value, i))
}

fn hex_text(v: u64) -> (text: &'static str)
    requires
        v < 16,
    ensures
        text@ == seq![hex_digit(v)],
{
    proof {
        reveal_strlit("0");
        reveal_strlit("1");
        reveal_strlit("2");
        reveal_strlit("3");
        reveal_strlit("4");
        reveal_strlit("5");
        reveal_strlit("6");
        reveal_strlit("7");
        reveal_strlit("8");
        reveal_strlit("9");
        reveal_strlit("a");
        reveal_strlit("b");
        reveal_strlit("c");
        reveal_strlit("d");
        reveal_strlit("e");
        reveal_strlit("f");
    }
    let text: &'static str = if v == 0 {
            "0"
        } else if v == 1 {
            "1"
        } else if v == 2 {
            "2"
        } else if v == 3 {
            "3"
        } else if v == 4 {
            "4"
        } else if v == 5 {
            "5"
        } else if v == 6 {
            "6"
        } else if v == 7 {
            "7"
        } else if v == 8 {
            "8"
        } else if v == 9 {
            "9"
        } else if v == 10 {
            "a"
        } else if v == 11 {
            "b"
        } else if v == 12 {
            "c"
        } else if v == 13 {
            "d"
        } else if v == 14 {
            "e"
        } else {
            "f"
        };
    assert(text@ =~= seq![hex_digit(v)]);
    text
}

/// Writes a number in 16 hexadecimal digits.
pub fn to_hex16(value: u64) -> (text: String)
    ensures
        text@ == hex16(value),
{
    let mut text: String = String::new();
    let mut i: u64 = 0;
    while i < 16
        invariant
            i <= 16,
            text@.len() == i,
            forall|k: int| 0 <= k < i ==> text@[k] == hex_at(value, k),
        decreases 16 - i,
    {
        let shift: u64 = 60 - 4 * i;
        let nibble: u64 = (value >> shift) & 0xf;
        assert(nibble < 16) by (bit_vector)
            requires
                nibble == (value >> shift) & 0xf,
        ;
        let ghost before = text@;
        text.append(hex_text(nibble));
        assert(text@ =~= before.push(hex_digit(nibble)));
        i = i + 1;
    }
    assert(text@ =~= hex16(value));
    text
}

proof fn lemma_digit_injective(x: u64, y: u64)
    requires
        x < 16,
        y < 16,
        hex_digit(x) == hex_digit(y),
    ensures
        x == y,
{
}

proof fn lemma_same_nibble(a: u64, b: u64, i: int)
    requires
        0 <= i < 16,
        hex16(a) == hex16(b),
    ensures
        (a >> ((60 - 4 * i) as u64)) & 0xf == (b >> ((60 - 4 * i) as u64)) & 0xf,
{
    let shift = (60 - 4 * i) as u64;
    let x = (a >> shift) & 0xf;
    let y = (b >> shift) & 0xf;
    assert(x < 16) by (bit_vector)
        requires
            x == (a >> shift) & 0xf,
    ;
    assert(y < 16) by (bit_vector)
        requires
            y == (b >> shift) & 0xf,
    ;
    assert(hex16(a)[i] == hex_digit(x));
    assert(hex16(b)[i] == hex_digit(y));
    lemma_digit_injective(x, y);
}

/// Two numbers with the same 16 hexadecimal digits are the same number: so
/// crashes with different signatures are kept in different files.
pub proof fn lemma_hex16_injective(a: u64, b: u64)
    requires
        hex16(a) == hex16(b),
    ensures
        a == b,
{
    lemma_same_nibble(a, b, 0);
    lemma_same_nibble(a, b, 1);
    lemma_same_nibble(a, b, 2);
    lemma_same_nibble(a, b, 3);
    lemma_same_nibble(a, b, 4);
    lemma_same_nibble(a, b, 5);
    lemma_same_nibble(a, b, 6);
    lemma_same_nibble(a, b, 7);
    lemma_same_nibble(a, b, 8);
    lemma_same_nibble(a, b, 9);
    lemma_same_nibble(a, b, 10);
    lemma_same_nibble(a, b, 11);
    lemma_same_nibble(a, b, 12);
    lemma_same_nibble(a, b, 13);
    lemma_same_nibble(a, b, 14);
    lemma_same_nibble(a, b, 15);
    assert(a == b) by (bit_vector)
        requires
            (a >> 60u64) & 0xf == (b >> 60u64) & 0xf,
            (a >> 56u64) & 0xf == (b >> 56u64) & 0xf,
            (a >> 52u64) & 0xf == (b >> 52u64) & 0xf,
            (a >> 48u64) & 0xf == (b >> 48u64) & 0xf,
            (a >> 44u64) & 0xf == (b >> 44u64) & 0xf,
            (a >> 40u64) & 0xf == (b >> 40u64) & 0xf,
            (a >> 36u64) & 0xf == (b >> 36u64) & 0xf,
            (a >> 32u64) & 0xf == (b >> 32u64) & 0xf,
            (a >> 28u64) & 0xf == (b >> 28u64) & 0xf,
            (a >> 24u64) & 0xf == (b >> 24u64) & 0xf,
            (a >> 20u64) & 0xf == (b >> 20u64) & 0xf,
            (a >> 16u64) & 0xf == (b >> 16u64) & 0xf,
            (a >> 12u64) & 0xf == (b >> 12u64) & 0xf,
            (a >> 8u64) & 0xf == (b >> 8u64) & 0xf,
            (a >> 4u64) & 0xf == (b >> 4u64) & 0xf,
            (a >> 0u64) & 0xf == (b >> 0u64) & 0xf,
    ;
}

/// The file in which a test case is kept: named by the hash of its bytes, in
/// the corpus directory.
pub fn corpus_file(corpus_dir: &str, bytes: &Vec<u8>) -> (path: String)
    ensures
        path@ == joined(corpus_dir@, hex16(content_hash(bytes@))),
{
    let name: String = to_hex16(hash_bytes(bytes));
    join_path(corpus_dir, name.as_str())
}

/// The file in which a crash is kept: named by its signature, in the crash
/// directory. Every crash with the same signature has the same file.
pub fn crash_file(crashes_dir: &str, signature: u64) -> (path: String)
    ensures
        path@ == joined(crashes_dir@, hex16(signature)),
{
    let name: String = to_hex16(signature);
    join_path(crashes_dir, name.as_str())
}

} // verus!
