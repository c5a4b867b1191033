//! Laws of frames and of JSON values.

use vstd::prelude::*;

verus! {

use crate::json::{member, Json};
use crate::rpc::{le_bytes, le_value};
use crate::text::dec_int;

/// The length of a frame comes first, in four bytes of which the lowest comes first.
pub proof fn law_length_prefix(n: int)
    requires
        0 <= n < 0x1_0000_0000,
    ensures
        le_bytes(n).len() == 4,
        le_bytes(n)[0] + 256 * le_bytes(n)[1] + 65_536 * le_bytes(n)[2] + 16_777_216 * le_bytes(n)[3]
            == n,
{
    let a = n % 0x100;
    let b = n / 0x100 % 0x100;
    let c = n / 0x1_0000 % 0x100;
    let d = n / 0x100_0000 % 0x100;
    assert(n / 0x1_0000 == n / 0x100 / 0x100);
    assert(n / 0x100_0000 == n / 0x100 / 0x100 / 0x100);
}

/// A length is read from the first four bytes, the lowest first.
pub proof fn law_length_read(b: Seq<u8>)
    requires
        b.len() >= 4,
    ensures
        le_value(b) == b[0] + 256 * b[1] + 65_536 * b[2] + 16_777_216 * b[3],
        b[1] == 0 && b[2] == 0 && b[3] == 0 ==> le_value(b) == b[0],
{
}

/// A member of an object is the first of its name; nothing else has members.
pub proof fn law_member(v: Json, key: Seq<char>, k: int)
    ensures
        match v {
            Json::Object(ms) => {
                &&& 0 <= k < ms@.len() && ms@[k].0@ == key && (forall|j: int|
                    0 <= j < k ==> (#[trigger] ms@[j]).0@ != key) ==> v.at(key) == Some(ms@[k].1)
                &&& (forall|j: int| 0 <= j < ms@.len() ==> (#[trigger] ms@[j]).0@ != key) ==> v.at(
                    key,
                ) is None
            },
            _ => v.at(key) is None,
        },
{
    match v {
        Json::Object(ms) => {
            lemma_member(ms@, key, k);
        },
        _ => {},
    }
}

proof fn lemma_member(ms: Seq<(String, Json)>, key: Seq<char>, k: int)
    ensures
        0 <= k < ms.len() && ms[k].0@ == key && (forall|j: int|
            0 <= j < k ==> (#[trigger] ms[j]).0@ != key) ==> member(ms, key) == Some(ms[k].1),
        (forall|j: int| 0 <= j < ms.len() ==> (#[trigger] ms[j]).0@ != key) ==> member(ms, key)
            is None,
    decreases ms.len(),
{
    if ms.len() > 0 {
        let rest = ms.skip(1);
        lemma_member(rest, key, k - 1);
        if 0 < k < ms.len() && ms[k].0@ == key && (forall|j: int|
            0 <= j < k ==> (#[trigger] ms[j]).0@ != key) {
            assert(ms[0].0@ != key);
            assert forall|j: int| 0 <= j < k - 1 implies (#[trigger] rest[j]).0@ != key by {
                assert(rest[j] == ms[j + 1]);
            }
        }
        if forall|j: int| 0 <= j < ms.len() ==> (#[trigger] ms[j]).0@ != key {
            assert(ms[0].0@ != key);
            assert forall|j: int| 0 <= j < rest.len() implies (#[trigger] rest[j]).0@ != key by {
                assert(rest[j] == ms[j + 1]);
            }
        }
    }
}

/// A value is taken as what it is and never as anything else: a text only from a text, a number
/// only from a number, a flag only from a flag.
pub proof fn law_no_coercion(v: Json)
    ensures
        v.text() is Some <==> v is Str,
        v.integer() is Some <==> v is Int,
        v.boolean() is Some <==> v is Bool,
        v.items() is Some <==> v is Array,
        v.members() is Some <==> v is Object,
        v.number() is Some <==> v is Int || v is Big || v is Decimal,
        v.uint() is Some <==> v is Big || (v is Int && v->Int_0 >= 0),
        v.integer() is Some && v.integer()->0 >= 0 ==> v.uint() is Some && v.uint()->0
            == v.integer()->0,
        v.integer() is Some ==> v.number() == Some(dec_int(v.integer()->0 as int)),
{
}

} // verus!
