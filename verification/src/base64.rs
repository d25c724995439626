//! Base64 with the standard alphabet.
//!
//! Decoding is lenient: padding, spaces and line ends are skipped wherever
//! they stand, and bits left over at the end are dropped.

use crate::text::string_from_chars;
use vstd::prelude::*;
use vstd::string::StringSliceAdditionalSpecFns;
use vstd::utf8::encode_utf8;

verus! {

/// The bytes of a text: its encoding as UTF-8.
pub open spec fn bytes_of(text: Seq<char>) -> Seq<u8> {
    encode_utf8(text)
}

/// Whether decoding passes over the byte: `=`, a space, or a line end.
pub open spec fn skipped(byte: u8) -> bool {
    byte == 61 || byte == 10 || byte == 13 || byte == 32
}

/// The six bits that a byte of the alphabet stands for: `A` to `Z` for 0 to
/// 25, `a` to `z` for 26 to 51, `0` to `9` for 52 to 61, `+` for 62 and `/`
/// for 63.
pub open spec fn sextet(byte: u8) -> Option<u8> {
    if 65 <= byte <= 90 {
        Some((byte - 65) as u8)
    } else if 97 <= byte <= 122 {
        Some((byte - 71) as u8)
    } else if 48 <= byte <= 57 {
        Some((byte + 4) as u8)
    } else if byte == 43 {
        Some(62u8)
    } else if byte == 47 {
        Some(63u8)
    } else {
        None
    }
}

/// The byte of the alphabet that stands for six bits.
pub open spec fn symbol(bits: u8) -> u8 {
    if bits < 26 {
        (bits + 65) as u8
    } else if bits < 52 {
        (bits + 71) as u8
    } else if bits < 62 {
        (bits - 4) as u8
    } else if bits == 62 {
        43u8
    } else {
        47u8
    }
}

/// Whether decoding accepts the byte.
pub open spec fn accepted(byte: u8) -> bool {
    skipped(byte) || sextet(byte) is Some
}

/// Whether `at` is the place of the first byte of `input` that decoding
/// does not accept.
pub open spec fn first_rejected(input: Seq<u8>, at: int) -> bool {
    &&& 0 <= at < input.len()
    &&& !accepted(input[at])
    &&& forall|i: int| 0 <= i < at ==> accepted(#[trigger] input[i])
}

/// The six-bit groups that `input` spells, in order: one for each byte
/// that is not skipped.
pub open spec fn sextets(input: Seq<u8>) -> Seq<u8> {
    input.filter(|byte: u8| !skipped(byte)).map_values(
        |byte: u8|
            match sextet(byte) {
                Some(bits) => bits,
                None => 0u8,
            },
    )
}

/// The number of whole bytes in `count` six-bit groups.
pub open spec fn decoded_len(count: nat) -> nat {
    (count * 6 / 8) as nat
}

/// The byte at `at` of the bit string that the six-bit groups, each with
/// its high bit first, make up.
pub open spec fn decoded_byte(groups: Seq<u8>, at: int) -> u8 {
    let first = 4 * (at / 3);
    if at % 3 == 0 {
        (groups[first] << 2) | (groups[first + 1] >> 4)
    } else if at % 3 == 1 {
        ((groups[first + 1] & 0xf) << 4) | (groups[first + 2] >> 2)
    } else {
        ((groups[first + 2] & 0x3) << 6) | groups[first + 3]
    }
}

/// The whole bytes of the bit string that the six-bit groups make up.
pub open spec fn decoded(groups: Seq<u8>) -> Seq<u8> {
    Seq::new(decoded_len(groups.len()), |at: int| decoded_byte(groups, at))
}

/// The error text for a byte that decoding does not accept.
pub open spec fn rejection(byte: u8) -> Seq<char> {
    "Invalid base64 char: "@ + seq![byte as char]
}

/// The six bits that `byte` stands for.
pub fn sextet_of(byte: u8) -> (found: Option<u8>)
    ensures
        found == sextet(byte),
        found is Some ==> found->0 < 64,
{
    if 65 <= byte && byte <= 90 {
        Some(byte - 65)
    } else if 97 <= byte && byte <= 122 {
        Some(byte - 71)
    } else if 48 <= byte && byte <= 57 {
        Some(byte + 4)
    } else if byte == 43 {
        Some(62)
    } else if byte == 47 {
        Some(63)
    } else {
        None
    }
}

proof fn lemma_sextets_step(input: Seq<u8>, i: int)
    requires
        0 <= i < input.len(),
    ensures
        skipped(input[i]) ==> sextets(input.take(i + 1)) == sextets(input.take(i)),
        !skipped(input[i]) ==> sextets(input.take(i + 1)) == sextets(input.take(i)).push(
            match sextet(input[i]) {
                Some(bits) => bits,
                None => 0u8,
            },
        ),
{
    reveal(Seq::filter);
    let keep = |byte: u8| !skipped(byte);
    let value = |byte: u8|
        match sextet(byte) {
            Some(bits) => bits,
            None => 0u8,
        };
    assert(input.take(i + 1).drop_last() =~= input.take(i));
    assert(input.take(i + 1).last() == input[i]);
    if !skipped(input[i]) {
        assert(input.take(i + 1).filter(keep) == input.take(i).filter(keep).push(input[i]));
        assert(input.take(i + 1).filter(keep).map_values(value) =~= input.take(i).filter(
            keep,
        ).map_values(value).push(value(input[i])));
    } else {
        assert(input.take(i + 1).filter(keep) == input.take(i).filter(keep));
    }
}

proof fn lemma_decoded_grows(groups: Seq<u8>, bits: u8)
    ensures
        forall|at: int|
            0 <= at < decoded_len(groups.len()) ==> decoded_byte(groups.push(bits), at)
                == decoded_byte(groups, at),
        groups.len() % 4 == 0 ==> decoded(groups.push(bits)) == decoded(groups),
        groups.len() % 4 != 0 ==> decoded(groups.push(bits)) == decoded(groups).push(
            decoded_byte(groups.push(bits), decoded_len(groups.len()) as int),
        ),
{
    let more = groups.push(bits);
    let count = groups.len();
    assert forall|at: int| 0 <= at < decoded_len(count) implies decoded_byte(more, at)
        == decoded_byte(groups, at) by {
        let first = 4 * (at / 3);
        assert(first + 3 < count || (at % 3 != 2 && first + 2 < count) || (at % 3 == 0 && first
            + 1 < count));
    }
    if count % 4 == 0 {
        assert(decoded_len(more.len()) == decoded_len(count));
        assert(decoded(more) =~= decoded(groups));
    } else {
        assert(decoded_len(more.len()) == decoded_len(count) + 1);
        assert(decoded(more) =~= decoded(groups).push(
            decoded_byte(more, decoded_len(count) as int),
        ));
    }
}

/// Whether `buf` holds the bits of `groups` that no whole byte has taken
/// up yet, `bits` of them, from the low end of the last group.
spec fn holds(groups: Seq<u8>, buf: u32, bits: u32) -> bool {
    &&& bits == (groups.len() * 6) % 8
    &&& forall|k: int| 0 <= k < groups.len() ==> #[trigger] groups[k] < 64
    &&& bits == 0 ==> buf == 0
    &&& bits == 6 ==> buf == groups.last()
    &&& bits == 4 ==> buf == groups.last() & 0xf
    &&& bits == 2 ==> buf == groups.last() & 0x3
}

/// Takes one more group of six bits: the bits held back and the new ones
/// give a byte as soon as there are eight of them.
fn take_group(Ghost(groups): Ghost<Seq<u8>>, buf: u32, bits: u32, val: u8) -> (next: (
    u32,
    u32,
    Option<u8>,
))
    requires
        holds(groups, buf, bits),
        val < 64,
    ensures
        holds(groups.push(val), next.0, next.1),
        decoded(groups.push(val)) == match next.2 {
            Some(byte) => decoded(groups).push(byte),
            None => decoded(groups),
        },
{
    let ghost after = groups.push(val);
    let ghost at = decoded_len(groups.len()) as int;
    let ghost first = 4 * (at / 3);
    let ghost prev = if groups.len() > 0 {
        groups.last()
    } else {
        0u8
    };
    proof {
        lemma_decoded_grows(groups, val);
        assert forall|k: int| 0 <= k < after.len() implies #[trigger] after[k] < 64 by {
            if k < groups.len() {
                assert(after[k] == groups[k]);
            }
        }
        assert(after.last() == val);
        assert(prev & 0xf < 64) by (bit_vector);
        assert(prev & 0x3 < 64) by (bit_vector);
    }
    let wide: u32 = val as u32;
    assert((buf << 6) | wide < 4096) by (bit_vector)
        requires
            buf < 64,
            wide < 64,
    ;
    let joined: u32 = (buf << 6) | wide;
    if bits == 0 {
        assert((0u32 << 6) | wide == wide) by (bit_vector);
        assert(val & 0x3f == val) by (bit_vector)
            requires
                val < 64,
        ;
        (joined, 6, None)
    } else if bits == 6 {
        proof {
            assert(at % 3 == 0 && first == groups.len() - 1);
            assert(after[first] == prev && after[first + 1] == val);
            assert((((prev as u32) << 6 | val as u32) >> 4u32) as u8 == (prev << 2) | (val >> 4))
                by (bit_vector)
                requires
                    prev < 64,
                    val < 64,
            ;
            assert(((prev as u32) << 6 | val as u32) & 0xfu32 == (val & 0xf) as u32)
                by (bit_vector)
                requires
                    prev < 64,
                    val < 64,
            ;
        }
        let made: u8 = #[verifier::truncate]
        ((joined >> 4) as u8);
        (joined & 0xf, 4, Some(made))
    } else if bits == 4 {
        proof {
            assert(at % 3 == 1 && first + 1 == groups.len() - 1);
            assert(after[first + 1] == prev && after[first + 2] == val);
            assert(((((prev & 0xf) as u32) << 6 | val as u32) >> 2u32) as u8 == ((prev & 0xf)
                << 4) | (val >> 2)) by (bit_vector)
                requires
                    val < 64,
            ;
            assert((((prev & 0xf) as u32) << 6 | val as u32) & 0x3u32 == (val & 0x3) as u32)
                by (bit_vector)
                requires
                    val < 64,
            ;
        }
        let made: u8 = #[verifier::truncate]
        ((joined >> 2) as u8);
        (joined & 0x3, 2, Some(made))
    } else {
        proof {
            assert(bits == 2);
            assert(at % 3 == 2 && first + 2 == groups.len() - 1);
            assert(after[first + 2] == prev && after[first + 3] == val);
            assert((((prev & 0x3) as u32) << 6 | val as u32) as u8 == ((prev & 0x3) << 6) | val)
                by (bit_vector)
                requires
                    val < 64,
            ;
        }
        let made: u8 = #[verifier::truncate]
        (joined as u8);
        (0, 0, Some(made))
    }
}

/// Decodes base64 text. Every byte of `input` that is not skipped has to
/// belong to the alphabet; the first that does not is named in the error.
pub fn base64_decode(input: &str) -> (result: Result<Vec<u8>, String>)
    ensures
        match result {
            Ok(bytes) => (forall|i: int|
                0 <= i < bytes_of(input@).len() ==> accepted(#[trigger] bytes_of(input@)[i]))
                && bytes@ == decoded(sextets(bytes_of(input@))),
            Err(message) => exists|at: int|
                first_rejected(bytes_of(input@), at) && message@ == rejection(
                    #[trigger] bytes_of(input@)[at],
                ),
        },
{
    let bytes = input.as_bytes();
    let mut output: Vec<u8> = Vec::new();
    let mut buf: u32 = 0;
    let mut bits: u32 = 0;
    let mut i: usize = 0;
    assert(sextets(bytes@.take(0)) =~= Seq::<u8>::empty()) by {
        reveal(Seq::filter);
    }
    assert(decoded(Seq::<u8>::empty()) =~= Seq::<u8>::empty());
    while i < bytes.len()
        invariant
            i <= bytes.len(),
            bytes@ == bytes_of(input@),
            forall|k: int| 0 <= k < i ==> accepted(#[trigger] bytes@[k]),
            holds(sextets(bytes@.take(i as int)), buf, bits),
            output@ == decoded(sextets(bytes@.take(i as int))),
        decreases bytes.len() - i,
    {
        let byte = bytes[i];
        let ghost before = sextets(bytes@.take(i as int));
        proof {
            lemma_sextets_step(bytes@, i as int);
        }
        if byte == 61 || byte == 10 || byte == 13 || byte == 32 {
            i = i + 1;
            continue ;
        }
        let val: u8 = match sextet_of(byte) {
            Some(val) => val,
            None => {
                let mut letter: Vec<char> = Vec::new();
                letter.push(byte as char);
                let mut message = "Invalid base64 char: ".to_owned();
                message.append(string_from_chars(&letter).as_str());
                assert(first_rejected(bytes@, i as int));
                assert(letter@ =~= seq![byte as char]);
                return Err(message);
            },
        };
        let next = take_group(Ghost(before), buf, bits, val);
        buf = next.0;
        bits = next.1;
        match next.2 {
            Some(made) => {
                output.push(made);
            },
            None => {},
        }
        i = i + 1;
    }
    assert(bytes@.take(i as int) =~= bytes@);
    Ok(output)
}

/// The number of symbols, padding included, that encode `count` bytes.
pub open spec fn encoded_len(count: nat) -> nat {
    ((count + 2) / 3 * 4) as nat
}

/// The six bits at `at` of the bit string of `bytes`, cut into groups of
/// six with zeros after the last byte.
pub open spec fn encoded_bits(bytes: Seq<u8>, at: int) -> u8 {
    let first = 3 * (at / 4);
    let b0 = bytes[first];
    let b1 = if first + 1 < bytes.len() {
        bytes[first + 1]
    } else {
        0u8
    };
    let b2 = if first + 2 < bytes.len() {
        bytes[first + 2]
    } else {
        0u8
    };
    if at % 4 == 0 {
        b0 >> 2
    } else if at % 4 == 1 {
        ((b0 & 0x3) << 4) | (b1 >> 4)
    } else if at % 4 == 2 {
        ((b1 & 0xf) << 2) | (b2 >> 6)
    } else {
        b2 & 0x3f
    }
}

/// Whether the symbol at `at` of the encoding of `count` bytes is padding:
/// a group of six bits that holds no bit of any byte.
pub open spec fn is_padding(count: nat, at: int) -> bool {
    3 * (at / 4) + (at % 4) > count
}

/// The symbol at `at` of the encoding of `bytes`.
pub open spec fn encoded_byte(bytes: Seq<u8>, at: int) -> u8 {
    if is_padding(bytes.len(), at) {
        61u8
    } else {
        symbol(encoded_bits(bytes, at))
    }
}

/// The encoding of `bytes`: four symbols for every three bytes, the last
/// four filled up with `=`.
pub open spec fn encoded(bytes: Seq<u8>) -> Seq<u8> {
    Seq::new(encoded_len(bytes.len()), |at: int| encoded_byte(bytes, at))
}

/// The symbol that stands for six bits.
pub fn symbol_of(bits: u8) -> (byte: u8)
    requires
        bits < 64,
    ensures
        byte == symbol(bits),
        byte < 128,
        sextet(byte) == Some(bits),
        !skipped(byte),
{
    if bits < 26 {
        bits + 65
    } else if bits < 52 {
        bits + 71
    } else if bits < 62 {
        bits - 4
    } else if bits == 62 {
        43
    } else {
        47
    }
}

/// The four symbols that encode the bytes of `bytes` from `3 * chunk` on.
fn chunk_symbols(bytes: &[u8], chunk: usize) -> (symbols: (u8, u8, u8, u8))
    requires
        3 * chunk < bytes@.len(),
    ensures
        symbols.0 == encoded_byte(bytes@, 4 * chunk),
        symbols.1 == encoded_byte(bytes@, 4 * chunk + 1),
        symbols.2 == encoded_byte(bytes@, 4 * chunk + 2),
        symbols.3 == encoded_byte(bytes@, 4 * chunk + 3),
        symbols.0 < 128 && symbols.1 < 128 && symbols.2 < 128 && symbols.3 < 128,
{
    let len: usize = bytes.len();
    let first: usize = chunk * 3;
    let rest: usize = len - first;
    let b0: u8 = bytes[first];
    let b1: u8 = if rest > 1 {
        bytes[first + 1]
    } else {
        0
    };
    let b2: u8 = if rest > 2 {
        bytes[first + 2]
    } else {
        0
    };
    assert(b0 >> 2 < 64) by (bit_vector);
    assert(((b0 & 0x3) << 4) | (b1 >> 4) < 64) by (bit_vector);
    assert(((b1 & 0xf) << 2) | (b2 >> 6) < 64) by (bit_vector);
    assert(b2 & 0x3f < 64) by (bit_vector);
    let s0 = symbol_of(b0 >> 2);
    let s1 = symbol_of(((b0 & 0x3) << 4) | (b1 >> 4));
    let s2 = if rest > 1 {
        symbol_of(((b1 & 0xf) << 2) | (b2 >> 6))
    } else {
        61
    };
    let s3 = if rest > 2 {
        symbol_of(b2 & 0x3f)
    } else {
        61
    };
    proof {
        let base = 4 * chunk as int;
        assert(3 * (base / 4) == first && base % 4 == 0);
        assert(3 * ((base + 1) / 4) == first && (base + 1) % 4 == 1);
        assert(3 * ((base + 2) / 4) == first && (base + 2) % 4 == 2);
        assert(3 * ((base + 3) / 4) == first && (base + 3) % 4 == 3);
    }
    (s0, s1, s2, s3)
}

/// Encodes `bytes` as base64 text with padding.
pub fn base64_encode(bytes: &[u8]) -> (text: String)
    ensures
        text@ == encoded(bytes@).map_values(|byte: u8| byte as char),
        bytes_of(text@) == encoded(bytes@),
{
    let mut symbols: Vec<char> = Vec::new();
    let chunks: usize = bytes.len() / 3 + if bytes.len() % 3 == 0 {
        0
    } else {
        1
    };
    let mut chunk: usize = 0;
    while chunk < chunks
        invariant
            chunk <= chunks,
            chunks == (bytes@.len() + 2) / 3,
            bytes@.len() <= usize::MAX,
            symbols@.len() == chunk * 4,
            forall|at: int|
                0 <= at < symbols@.len() ==> #[trigger] symbols@[at] == encoded_byte(bytes@, at)
                    as char,
        decreases chunks - chunk,
    {
        let four = chunk_symbols(bytes, chunk);
        symbols.push(four.0 as char);
        symbols.push(four.1 as char);
        symbols.push(four.2 as char);
        symbols.push(four.3 as char);
        chunk = chunk + 1;
    }
    let text = string_from_chars(&symbols);
    proof {
        assert(text@ =~= encoded(bytes@).map_values(|byte: u8| byte as char));
        assert forall|at: int| 0 <= at < text@.len() implies '\0' <= #[trigger] text@[at]
            <= '\u{7f}' by {
            assert(encoded_byte(bytes@, at) < 128);
        }
        vstd::utf8::is_ascii_chars_encode_utf8(text@);
        assert(bytes_of(text@) =~= encoded(bytes@));
    }
    text
}

/// The number of symbols in the encoding of `count` bytes that are not
/// padding.
pub open spec fn carrying_len(count: nat) -> nat {
    if count % 3 == 0 {
        count / 3 * 4
    } else {
        count / 3 * 4 + count % 3 + 1
    }
}

proof fn lemma_encoded_bits_fit(bytes: Seq<u8>, at: int)
    ensures
        encoded_bits(bytes, at) < 64,
{
    let first = 3 * (at / 4);
    let b0 = bytes[first];
    let b1 = if first + 1 < bytes.len() {
        bytes[first + 1]
    } else {
        0u8
    };
    let b2 = if first + 2 < bytes.len() {
        bytes[first + 2]
    } else {
        0u8
    };
    assert(b0 >> 2 < 64) by (bit_vector);
    assert(((b0 & 0x3) << 4) | (b1 >> 4) < 64) by (bit_vector);
    assert(((b1 & 0xf) << 2) | (b2 >> 6) < 64) by (bit_vector);
    assert(b2 & 0x3f < 64) by (bit_vector);
}

proof fn lemma_sextets_of_encoded(bytes: Seq<u8>, upto: int)
    requires
        0 <= upto <= encoded_len(bytes.len()),
    ensures
        sextets(encoded(bytes).take(upto)) == Seq::new(
            if upto <= carrying_len(bytes.len()) {
                upto as nat
            } else {
                carrying_len(bytes.len())
            },
            |at: int| encoded_bits(bytes, at),
        ),
        forall|i: int| 0 <= i < upto ==> accepted(#[trigger] encoded(bytes)[i]),
    decreases upto,
{
    let text = encoded(bytes);
    let carrying = carrying_len(bytes.len());
    if upto == 0 {
        assert(sextets(text.take(0)) =~= Seq::<u8>::empty()) by {
            reveal(Seq::filter);
        }
        assert(Seq::new(0nat, |at: int| encoded_bits(bytes, at)) =~= Seq::<u8>::empty());
    } else {
        let last = upto - 1;
        lemma_sextets_of_encoded(bytes, last);
        lemma_sextets_step(text, last);
        lemma_encoded_bits_fit(bytes, last);
        assert(text[last] == encoded_byte(bytes, last));
        if last < carrying {
            assert(!is_padding(bytes.len(), last));
            let bits = encoded_bits(bytes, last);
            assert(sextet(symbol(bits)) == Some(bits));
            assert(!skipped(symbol(bits)));
            assert(Seq::new(last as nat, |at: int| encoded_bits(bytes, at)).push(bits) =~= Seq::new(
                upto as nat,
                |at: int| encoded_bits(bytes, at),
            ));
        } else {
            assert(is_padding(bytes.len(), last));
        }
        assert forall|i: int| 0 <= i < upto implies accepted(#[trigger] text[i]) by {
            if i == last {
            }
        }
    }
}

/// Decoding undoes encoding: whatever the bytes, their encoding is
/// accepted and decodes to the same bytes.
pub proof fn law_decode_inverts_encode(bytes: Seq<u8>)
    ensures
        forall|i: int| 0 <= i < encoded(bytes).len() ==> accepted(#[trigger] encoded(bytes)[i]),
        decoded(sextets(encoded(bytes))) == bytes,
{
    let text = encoded(bytes);
    let count = bytes.len();
    let carrying = carrying_len(count);
    lemma_sextets_of_encoded(bytes, text.len() as int);
    assert(text.take(text.len() as int) =~= text);
    let groups = sextets(text);
    assert(groups == Seq::new(carrying, |at: int| encoded_bits(bytes, at)));
    assert(decoded_len(carrying) == count);
    assert forall|at: int| 0 <= at < count implies decoded_byte(groups, at) == bytes[at] by {
        let first = 4 * (at / 3);
        let start = 3 * (at / 3);
        let b0 = bytes[start];
        let b1 = if start + 1 < count {
            bytes[start + 1]
        } else {
            0u8
        };
        let b2 = if start + 2 < count {
            bytes[start + 2]
        } else {
            0u8
        };
        assert(3 * (first / 4) == start);
        assert(3 * ((first + 1) / 4) == start && (first + 1) % 4 == 1);
        assert(3 * ((first + 2) / 4) == start && (first + 2) % 4 == 2);
        assert(3 * ((first + 3) / 4) == start && (first + 3) % 4 == 3);
        if at % 3 == 0 {
            assert(first + 1 < carrying);
            assert(groups[first] == b0 >> 2);
            assert(groups[first + 1] == ((b0 & 0x3) << 4) | (b1 >> 4));
            assert(((b0 >> 2) << 2) | ((((b0 & 0x3) << 4) | (b1 >> 4)) >> 4) == b0)
                by (bit_vector);
        } else if at % 3 == 1 {
            assert(first + 2 < carrying);
            assert(groups[first + 1] == ((b0 & 0x3) << 4) | (b1 >> 4));
            assert(groups[first + 2] == ((b1 & 0xf) << 2) | (b2 >> 6));
            assert((((((b0 & 0x3) << 4) | (b1 >> 4)) & 0xf) << 4) | ((((b1 & 0xf) << 2) | (b2
                >> 6)) >> 2) == b1) by (bit_vector);
        } else {
            assert(first + 3 < carrying);
            assert(groups[first + 2] == ((b1 & 0xf) << 2) | (b2 >> 6));
            assert(groups[first + 3] == b2 & 0x3f);
            assert((((((b1 & 0xf) << 2) | (b2 >> 6)) & 0x3) << 6) | (b2 & 0x3f) == b2)
                by (bit_vector);
        }
    }
    assert(decoded(groups) =~= bytes);
}

} // verus!
