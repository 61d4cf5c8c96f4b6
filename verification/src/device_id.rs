//! Identifiers of native audio input devices: `native:N`, where `N` is the
//! position of the device in the host's input enumeration.

use vstd::prelude::*;
use vstd::string::*;

use crate::decimal::{all_decimal_digits, decimal_chars, digits_value, lemma_decimal_chars_shortest, lemma_parse_decimal_chars, parse_usize_from, parsed_usize, push_decimal};

verus! {

/// The text that every native device id starts with.
pub open spec fn native_prefix() -> Seq<char> {
    seq!['n', 'a', 't', 'i', 'v', 'e', ':']
}

/// The id given to the input device at position `index`.
pub open spec fn native_id_chars(index: nat) -> Seq<char> {
    native_prefix() + decimal_chars(index)
}

/// The device position that an id names: the text after the `native:`
/// prefix, read as `usize::from_str` reads it; `None` when the prefix is
/// missing or the rest is not such a number.
pub open spec fn native_index_of(id: Seq<char>) -> Option<nat> {
    if id.len() >= native_prefix().len() && id.take(native_prefix().len() as int) == native_prefix() {
        parsed_usize(id.skip(native_prefix().len() as int))
    } else {
        None
    }
}

/// Builds the id `native:{index}`.
pub fn native_device_id(index: usize) -> (id: String)
    ensures
        id@ == native_id_chars(index as nat),
        id@.len() > 7,
        id@.take(7) == seq!['n', 'a', 't', 'i', 'v', 'e', ':'],
        id@.skip(7) == decimal_chars(index as nat),
{
    let prefix = "native:";
    proof {
        reveal_strlit("native:");
    }
    let mut id = String::from_str(prefix);
    push_decimal(&mut id, index);
    assert(id@ =~= native_id_chars(index as nat));
    id
}

/// Reads the device position out of a `native:N` id.
pub fn parse_native_index(device_id: &str) -> (r: Option<usize>)
    ensures
        match r {
            Some(i) => native_index_of(device_id@) == Some(i as nat),
            None => native_index_of(device_id@) is None,
        },
{
    let prefix = "native:";
    proof {
        reveal_strlit("native:");
    }
    let plen = prefix.unicode_len();
    let len = device_id.unicode_len();
    if len < plen {
        return None;
    }
    let mut k: usize = 0;
    while k < plen
        invariant
            k <= plen,
            plen == native_prefix().len(),
            prefix@ == native_prefix(),
            plen <= len,
            len == device_id@.len(),
            device_id@.take(k as int) == native_prefix().take(k as int),
        decreases plen - k,
    {
        if device_id.get_char(k) != prefix.get_char(k) {
            assert(device_id@.take(plen as int)[k as int] != native_prefix()[k as int]);
            return None;
        }
        assert(device_id@.take(k + 1) =~= device_id@.take(k as int).push(device_id@[k as int]));
        assert(native_prefix().take(k + 1) =~= native_prefix().take(k as int).push(native_prefix()[k as int]));
        k = k + 1;
    }
    assert(native_prefix().take(plen as int) =~= native_prefix());
    parse_usize_from(device_id, plen)
}

/// Every id that `native_device_id` builds names the position it was built from.
pub proof fn lemma_native_id_round_trip(index: usize)
    ensures
        native_index_of(native_id_chars(index as nat)) == Some(index as nat),
{
    let id = native_id_chars(index as nat);
    assert(id.take(native_prefix().len() as int) =~= native_prefix());
    assert(id.skip(native_prefix().len() as int) =~= decimal_chars(index as nat));
    lemma_parse_decimal_chars(index as nat);
}

/// The id of device `index` is `native:` followed by the shortest decimal
/// spelling of `index`, as `format!("native:{}", index)` writes it: digits
/// worth `index`, the first of them `'0'` only for device 0, spelled `native:0`.
pub proof fn lemma_native_id_spelling(index: nat)
    ensures
        native_id_chars(index).len() > 7,
        native_id_chars(index).take(7) == seq!['n', 'a', 't', 'i', 'v', 'e', ':'],
        all_decimal_digits(native_id_chars(index).skip(7)),
        digits_value(native_id_chars(index).skip(7)) == index,
        native_id_chars(index)[7] == '0' <==> index == 0,
        index == 0 ==> native_id_chars(index) == seq!['n', 'a', 't', 'i', 'v', 'e', ':', '0'],
{
    lemma_decimal_chars_shortest(index);
    let id = native_id_chars(index);
    assert(id.take(7) =~= seq!['n', 'a', 't', 'i', 'v', 'e', ':']);
    assert(id.skip(7) =~= decimal_chars(index));
    assert(id[7] == decimal_chars(index)[0]);
    if index == 0 {
        assert(id =~= seq!['n', 'a', 't', 'i', 'v', 'e', ':', '0']);
    }
}

/// An id names a device only when it starts with `native:`, and then it
/// names the number that the rest spells (as `usize::from_str` reads it);
/// every id without that prefix names nothing.
pub proof fn lemma_native_index_meaning(id: Seq<char>)
    ensures
        !(id.len() >= 7 && id.take(7) == seq!['n', 'a', 't', 'i', 'v', 'e', ':']) ==> native_index_of(id)
            is None,
        id.len() >= 7 && id.take(7) == seq!['n', 'a', 't', 'i', 'v', 'e', ':'] ==> native_index_of(id)
            == parsed_usize(id.skip(7)),
{
    assert(native_prefix() =~= seq!['n', 'a', 't', 'i', 'v', 'e', ':']);
}

} // verus!
