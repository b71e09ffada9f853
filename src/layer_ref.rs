use vstd::prelude::*;
use vstd::string::*;
use crate::error::EngineError;
use crate::text::{decimal, push_decimal};

verus! {

/// The prefix of a layer identifier; the ordinal follows it.
pub open spec fn layer_prefix() -> Seq<char> {
    seq!['l', 'a', 'y', 'e', 'r', '_']
}

pub open spec fn is_digit(c: char) -> bool {
    '0' <= c && c <= '9'
}

/// The value of a string of decimal digits.
pub open spec fn digits_value(s: Seq<char>) -> nat
    decreases s.len(),
{
    if s.len() == 0 {
        0
    } else {
        digits_value(s.drop_last()) * 10 + (s.last() as nat - '0' as nat) as nat
    }
}

/// The ordinal that layer identifier `id` names: `layer_` followed by one or more decimal
/// digits whose value fits in `usize`.
pub open spec fn layer_number(id: Seq<char>) -> Option<nat> {
    let digits = id.subrange(layer_prefix().len() as int, id.len() as int);
    if id.len() > layer_prefix().len() && id.subrange(0, layer_prefix().len() as int)
        == layer_prefix() && (forall|i: int| 0 <= i < digits.len() ==> is_digit(#[trigger] digits[i]))
        && digits_value(digits) <= usize::MAX {
        Some(digits_value(digits))
    } else {
        None
    }
}

/// Reads the ordinal of a layer identifier `layer_<n>`; `None` where it is malformed or
/// too large.
pub fn parse_layer_number(layer_id: &str) -> (r: Option<usize>)
    ensures
        match r {
            Some(n) => layer_number(layer_id@) == Some(n as nat),
            None => layer_number(layer_id@) is None,
        },
{
    let ghost s = layer_id@;
    let n = layer_id.unicode_len();
    if n <= 6 {
        return None;
    }
    proof {
        reveal_strlit("layer_");
    }
    let prefix = layer_id.substring_char(0, 6);
    let head = String::from_str(prefix);
    let expected = String::from_str("layer_");
    assert(expected@ =~= layer_prefix());
    if !(head == expected) {
        return None;
    }
    assert(s.subrange(0, 6) == layer_prefix());
    let ghost digits = s.subrange(6, n as int);
    let mut value: usize = 0;
    let mut i: usize = 6;
    while i < n
        invariant
            s == layer_id@,
            n == s.len(),
            6 <= i <= n,
            digits == s.subrange(6, n as int),
            forall|k: int| 0 <= k < i - 6 ==> is_digit(#[trigger] digits[k]),
            value as nat == digits_value(digits.subrange(0, i - 6)),
        decreases n - i,
    {
        let c = layer_id.get_char(i);
        if !('0' <= c && c <= '9') {
            assert(!is_digit(digits[i - 6]));
            return None;
        }
        let d = (c as u32 - '0' as u32) as usize;
        assert(digits.subrange(0, i - 6 + 1).drop_last() =~= digits.subrange(0, i - 6));
        assert(digits.subrange(0, i - 6 + 1).last() == c);
        if value > (usize::MAX - d) / 10 {
            proof {
                let k = i - 6 + 1;
                assert(value * 10 + d > usize::MAX) by (nonlinear_arith)
                    requires
                        value > (usize::MAX - d) / 10,
                        d <= 9,
                ;
                assert(digits_value(digits.subrange(0, k)) > usize::MAX);
                if forall|m: int| 0 <= m < digits.len() ==> is_digit(#[trigger] digits[m]) {
                    lemma_value_grows(digits, k);
                }
            }
            return None;
        }
        value = value * 10 + d;
        i = i + 1;
    }
    assert(digits.subrange(0, n - 6) =~= digits);
    Some(value)
}

/// A longer run of digits has a value at least as large.
proof fn lemma_value_grows(digits: Seq<char>, k: int)
    requires
        0 <= k <= digits.len(),
        forall|i: int| 0 <= i < digits.len() ==> is_digit(#[trigger] digits[i]),
    ensures
        digits_value(digits) >= digits_value(digits.subrange(0, k)),
    decreases digits.len() - k,
{
    if k < digits.len() {
        lemma_value_grows(digits, k + 1);
        assert(digits.subrange(0, k + 1).drop_last() =~= digits.subrange(0, k));
    } else {
        assert(digits.subrange(0, k) =~= digits);
    }
}

/// Resolves a layer identifier against a history of `history_len` layers: its ordinal,
/// counted from 1 at the top of the history. Fails with `InvalidLayerReference` where the
/// identifier is malformed or out of range.
pub fn resolve_layer(layer_id: &str, history_len: usize) -> (r: Result<usize, EngineError>)
    ensures
        match r {
            Ok(n) => layer_number(layer_id@) == Some(n as nat) && 1 <= n <= history_len,
            Err(e) => e matches EngineError::InvalidLayerReference && match layer_number(layer_id@) {
                Some(n) => n < 1 || n > history_len,
                None => true,
            },
        },
{
    match parse_layer_number(layer_id) {
        Some(n) => {
            if n >= 1 && n <= history_len {
                Ok(n)
            } else {
                Err(EngineError::InvalidLayerReference)
            }
        },
        None => Err(EngineError::InvalidLayerReference),
    }
}

/// The identifier, and staging directory name, of layer `n`: `layer_<n>`.
pub fn layer_dir_name(n: usize) -> (r: String)
    ensures
        r@ == layer_prefix() + decimal(n as nat),
{
    proof {
        reveal_strlit("layer_");
    }
    let mut s = String::from_str("layer_");
    push_decimal(&mut s, n as u64);
    s
}

} // verus!
