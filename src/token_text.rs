//! The text form of a token, as clients carry it: the serial number and
//! then the secret, each as 16 hexadecimal digits, written in lower case
//! and read in either case.

use crate::tokens::TokenId;
use vstd::arithmetic::div_mod::lemma_mod_breakdown;
use vstd::prelude::*;

verus! {

/// Length of the text form of a token.
pub const TOKEN_TEXT_LEN: usize = 32;

/// Digits of one 64-bit word.
pub const WORD_DIGITS: usize = 16;

/// The value of one hexadecimal digit.
pub open spec fn hex_value(b: u8) -> Option<nat> {
    if 48 <= b <= 57 {
        Some((b - 48) as nat)
    } else if 97 <= b <= 102 {
        Some((b - 87) as nat)
    } else if 65 <= b <= 70 {
        Some((b - 55) as nat)
    } else {
        None
    }
}

pub open spec fn is_hex(s: Seq<u8>) -> bool {
    forall|i: int| 0 <= i < s.len() ==> (#[trigger] hex_value(s[i])) is Some
}

/// The number that the hexadecimal digits `s` write, most significant
/// first.
pub open spec fn hex_number(s: Seq<u8>) -> nat
    decreases s.len(),
{
    if s.len() == 0 {
        0
    } else {
        hex_number(s.drop_last()) * 16 + match hex_value(s.last()) {
            Some(d) => d,
            None => 0,
        }
    }
}

pub open spec fn pow16(k: nat) -> nat
    decreases k,
{
    if k == 0 {
        1
    } else {
        16 * pow16((k - 1) as nat)
    }
}

/// The lower-case digit for `d < 16`.
pub open spec fn lower_hex_digit(d: nat) -> u8 {
    if d < 10 {
        (48 + d) as u8
    } else {
        (87 + d) as u8
    }
}

/// The lowest `width` hexadecimal digits of `n`, most significant first.
pub open spec fn hex_word(n: nat, width: nat) -> Seq<u8>
    decreases width,
{
    if width == 0 {
        Seq::empty()
    } else {
        hex_word(n / 16, (width - 1) as nat).push(lower_hex_digit(n % 16))
    }
}

/// The text form of `id`.
pub open spec fn token_text_of(id: TokenId) -> Seq<u8> {
    hex_word(id.serial as nat, WORD_DIGITS as nat) + hex_word(id.secret as nat, WORD_DIGITS as nat)
}

/// The token that `text` writes, if it is one.
pub open spec fn token_from_text(text: Seq<u8>) -> Option<TokenId> {
    if text.len() == TOKEN_TEXT_LEN && is_hex(text) {
        Some(
            TokenId {
                serial: hex_number(text.take(WORD_DIGITS as int)) as u64,
                secret: hex_number(text.skip(WORD_DIGITS as int)) as u64,
            },
        )
    } else {
        None
    }
}

proof fn lemma_pow16_word()
    ensures
        pow16(WORD_DIGITS as nat) == u64::MAX + 1,
{
    reveal_with_fuel(pow16, 17);
}

proof fn lemma_pow16_positive(k: nat)
    ensures
        pow16(k) > 0,
    decreases k,
{
    if k > 0 {
        lemma_pow16_positive((k - 1) as nat);
    }
}

proof fn lemma_pow16_grows(a: nat, b: nat)
    requires
        a <= b,
    ensures
        pow16(a) <= pow16(b),
    decreases b,
{
    if a < b {
        lemma_pow16_grows(a, (b - 1) as nat);
        lemma_pow16_positive((b - 1) as nat);
    }
}

proof fn lemma_hex_number_bound(s: Seq<u8>)
    ensures
        hex_number(s) < pow16(s.len()),
    decreases s.len(),
{
    if s.len() > 0 {
        lemma_hex_number_bound(s.drop_last());
        let d = match hex_value(s.last()) {
            Some(d) => d,
            None => 0,
        };
        assert(d < 16);
        assert(hex_number(s) <= (pow16((s.len() - 1) as nat) - 1) * 16 + 15);
    }
}

proof fn lemma_hex_word_reads_back(n: nat, width: nat)
    ensures
        hex_word(n, width).len() == width,
        is_hex(hex_word(n, width)),
        hex_number(hex_word(n, width)) == n % pow16(width),
    decreases width,
{
    if width > 0 {
        let w1 = (width - 1) as nat;
        lemma_hex_word_reads_back(n / 16, w1);
        let s = hex_word(n, width);
        let d = n % 16;
        assert(s.drop_last() =~= hex_word(n / 16, w1));
        assert(hex_value(lower_hex_digit(d)) == Some(d));
        assert forall|i: int| 0 <= i < s.len() implies (#[trigger] hex_value(s[i])) is Some by {
            if i < w1 {
                assert(s[i] == hex_word(n / 16, w1)[i]);
            }
        }
        lemma_pow16_positive(w1);
        lemma_mod_breakdown(n as int, 16, pow16(w1) as int);
    }
}

/// Reading the text form of a token gives the token back.
pub proof fn lemma_token_text_round_trip(id: TokenId)
    ensures
        token_text_of(id).len() == TOKEN_TEXT_LEN,
        token_from_text(token_text_of(id)) == Some(id),
{
    let w = WORD_DIGITS as nat;
    let text = token_text_of(id);
    lemma_hex_word_reads_back(id.serial as nat, w);
    lemma_hex_word_reads_back(id.secret as nat, w);
    lemma_pow16_word();
    assert(text.take(WORD_DIGITS as int) =~= hex_word(id.serial as nat, w));
    assert(text.skip(WORD_DIGITS as int) =~= hex_word(id.secret as nat, w));
    assert forall|i: int| 0 <= i < text.len() implies (#[trigger] hex_value(text[i])) is Some by {
        if i < WORD_DIGITS {
            assert(text[i] == hex_word(id.serial as nat, w)[i]);
        } else {
            assert(text[i] == hex_word(id.secret as nat, w)[i - WORD_DIGITS]);
        }
    }
}

fn hex_digit_value(b: u8) -> (r: Option<u8>)
    ensures
        match r {
            Some(d) => hex_value(b) == Some(d as nat) && d < 16,
            None => hex_value(b) is None,
        },
{
    if 48 <= b && b <= 57 {
        Some(b - 48)
    } else if 97 <= b && b <= 102 {
        Some(b - 87)
    } else if 65 <= b && b <= 70 {
        Some(b - 55)
    } else {
        None
    }
}

proof fn lemma_parse_step(word: Seq<u8>, i: int, value: nat, d: nat)
    requires
        0 <= i < word.len(),
        i < WORD_DIGITS,
        is_hex(word.take(i)),
        value == hex_number(word.take(i)),
        hex_value(word[i]) == Some(d),
    ensures
        is_hex(word.take(i + 1)),
        hex_number(word.take(i + 1)) == value * 16 + d,
        value * 16 + d <= u64::MAX,
{
    let prefix = word.take(i + 1);
    assert(prefix.drop_last() =~= word.take(i));
    assert(prefix.last() == word[i]);
    lemma_hex_number_bound(word.take(i));
    lemma_pow16_grows(i as nat, 15);
    reveal_with_fuel(pow16, 16);
    assert(pow16(15) * 16 == u64::MAX + 1);
    assert(d < 16);
    assert(value * 16 + d <= u64::MAX) by (nonlinear_arith)
        requires
            value < pow16(i as nat),
            pow16(i as nat) <= pow16(15),
            pow16(15) * 16 == u64::MAX + 1,
            d < 16,
    ;
    assert forall|j: int| 0 <= j < prefix.len() implies (#[trigger] hex_value(prefix[j])) is Some by {
        if j < i {
            assert(prefix[j] == word.take(i)[j]);
        }
    }
}

fn parse_word(text: &[u8], start: usize) -> (r: Option<u64>)
    requires
        text@.len() == TOKEN_TEXT_LEN,
        start == 0 || start == WORD_DIGITS,
    ensures
        r is Some <==> is_hex(text@.subrange(start as int, start + WORD_DIGITS)),
        r matches Some(v) ==> v == hex_number(text@.subrange(start as int, start + WORD_DIGITS)),
{
    let ghost word = text@.subrange(start as int, start + WORD_DIGITS);
    let mut value: u64 = 0;
    let mut i: usize = 0;
    while i < WORD_DIGITS
        invariant
            text@.len() == TOKEN_TEXT_LEN,
            start == 0 || start == WORD_DIGITS,
            word == text@.subrange(start as int, start + WORD_DIGITS),
            i <= WORD_DIGITS,
            is_hex(word.take(i as int)),
            value == hex_number(word.take(i as int)),
        decreases WORD_DIGITS - i,
    {
        let b = text[start + i];
        assert(b == word[i as int]);
        match hex_digit_value(b) {
            None => {
                assert(!is_hex(word)) by {
                    assert(hex_value(word[i as int]) is None);
                }
                return None;
            },
            Some(d) => {
                proof {
                    lemma_parse_step(word, i as int, value as nat, d as nat);
                }
                value = value * 16 + d as u64;
            },
        }
        i = i + 1;
    }
    assert(word.take(WORD_DIGITS as int) =~= word);
    Some(value)
}

/// Reads the text form of a token: `None` unless `text` is exactly
/// `TOKEN_TEXT_LEN` hexadecimal digits.
pub fn parse_token(text: &[u8]) -> (r: Option<TokenId>)
    ensures
        r == token_from_text(text@),
{
    if text.len() != TOKEN_TEXT_LEN {
        return None;
    }
    let serial = parse_word(text, 0);
    let secret = parse_word(text, WORD_DIGITS);
    let ghost head = text@.subrange(0, WORD_DIGITS as int);
    let ghost tail = text@.subrange(WORD_DIGITS as int, TOKEN_TEXT_LEN as int);
    proof {
        assert(head =~= text@.take(WORD_DIGITS as int));
        assert(tail =~= text@.skip(WORD_DIGITS as int));
        assert(is_hex(text@) <==> is_hex(head) && is_hex(tail)) by {
            if is_hex(head) && is_hex(tail) {
                assert forall|i: int| 0 <= i < text@.len() implies (#[trigger] hex_value(text@[i])) is Some by {
                    if i < WORD_DIGITS {
                        assert(text@[i] == head[i]);
                    } else {
                        assert(text@[i] == tail[i - WORD_DIGITS]);
                    }
                }
            }
            if is_hex(text@) {
                assert forall|i: int| 0 <= i < head.len() implies (#[trigger] hex_value(head[i])) is Some by {
                    assert(head[i] == text@[i]);
                }
                assert forall|i: int| 0 <= i < tail.len() implies (#[trigger] hex_value(tail[i])) is Some by {
                    assert(tail[i] == text@[i + WORD_DIGITS]);
                }
            }
        }
    }
    match (serial, secret) {
        (Some(serial), Some(secret)) => Some(TokenId { serial, secret }),
        _ => None,
    }
}

fn push_word(n: u64, width: usize, out: &mut Vec<u8>)
    ensures
        final(out)@ == old(out)@ + hex_word(n as nat, width as nat),
    decreases width,
{
    if width == 0 {
        assert(old(out)@ + hex_word(n as nat, 0) =~= old(out)@);
        return;
    }
    push_word(n / 16, width - 1, out);
    let d = (n % 16) as u8;
    let digit = if d < 10 {
        48 + d
    } else {
        87 + d
    };
    out.push(digit);
    assert(out@ =~= old(out)@ + hex_word(n as nat, width as nat));
}

/// Writes the text form of `id`.
pub fn token_text(id: TokenId) -> (r: Vec<u8>)
    ensures
        r@ == token_text_of(id),
{
    let mut out: Vec<u8> = Vec::new();
    push_word(id.serial, WORD_DIGITS, &mut out);
    push_word(id.secret, WORD_DIGITS, &mut out);
    assert(out@ =~= token_text_of(id));
    out
}

} // verus!
