use vstd::prelude::*;
use vstd::string::StringSliceAdditionalSpecFns;
use vstd::utf8::encode_utf8;
use crate::external::{sha256, sha256_digest};
use crate::json::JsonValue;

verus! {

/// The `k` low bytes of `x`, most significant first.
pub open spec fn be_bytes(x: nat, k: nat) -> Seq<u8>
    decreases k,
{
    if k == 0 {
        seq![]
    } else {
        be_bytes(x / 256, (k - 1) as nat).push((x % 256) as u8)
    }
}

/// A length as eight big-endian bytes.
pub open spec fn length_bytes(n: nat) -> Seq<u8> {
    be_bytes(n, 8)
}

/// A string as its UTF-8 length followed by its UTF-8 bytes.
pub open spec fn text_bytes(s: Seq<char>) -> Seq<u8> {
    length_bytes(encode_utf8(s).len()) + encode_utf8(s)
}

pub open spec fn item_count(v: JsonValue) -> int {
    match v {
        JsonValue::Array(x) => x@.len() as int,
        JsonValue::Object(e) => e@.len() as int,
        _ => 0,
    }
}

/// The canonical byte serialization of a value: a tag byte, then the payload; containers
/// give their item count and then each item in order, an object entry as its key's text
/// followed by its value.
pub open spec fn encoding(v: JsonValue) -> Seq<u8>
    decreases v, item_count(v) + 1,
{
    match v {
        JsonValue::Null => seq![0u8],
        JsonValue::Bool(b) => seq![1u8, if b { 1u8 } else { 0u8 }],
        JsonValue::Number(n) => seq![2u8] + be_bytes((n + 0x8000_0000_0000_0000) as nat, 8),
        JsonValue::Decimal(s) => seq![3u8] + text_bytes(s@),
        JsonValue::Text(s) => seq![4u8] + text_bytes(s@),
        JsonValue::Array(x) => seq![5u8] + length_bytes(x@.len()) + items_encoding(v, x@.len() as int),
        JsonValue::Object(e) => seq![6u8] + length_bytes(e@.len()) + items_encoding(v, e@.len() as int),
    }
}

/// The encodings of the first `n` items of a container, in order.
pub open spec fn items_encoding(v: JsonValue, n: int) -> Seq<u8>
    decreases v, n,
{
    if n <= 0 {
        seq![]
    } else {
        match v {
            JsonValue::Array(x) => if n <= x@.len() {
                items_encoding(v, n - 1) + encoding(x@[n - 1])
            } else {
                seq![]
            },
            JsonValue::Object(e) => if n <= e@.len() {
                items_encoding(v, n - 1) + text_bytes(e@[n - 1].0@) + encoding(e@[n - 1].1)
            } else {
                seq![]
            },
            _ => seq![],
        }
    }
}

/// The content hash of a value: the SHA-256 digest of its canonical serialization.
pub open spec fn content_hash_of(v: JsonValue) -> Seq<u8> {
    sha256_digest(encoding(v))
}

fn push_be(out: &mut Vec<u8>, x: u64, k: u32)
    ensures
        final(out)@ == old(out)@ + be_bytes(x as nat, k as nat),
    decreases k,
{
    if k > 0 {
        push_be(out, x / 256, k - 1);
        out.push((x % 256) as u8);
    }
}

fn push_text(out: &mut Vec<u8>, s: &str)
    ensures
        final(out)@ == old(out)@ + text_bytes(s@),
{
    let b = s.as_bytes();
    push_be(out, b.len() as u64, 8);
    let ghost start = out@;
    let mut i: usize = 0;
    while i < b.len()
        invariant
            i <= b@.len(),
            b@ == s.spec_bytes(),
            out@ == start + b@.take(i as int),
        decreases b@.len() - i,
    {
        proof {
            assert(b@.take(i + 1) =~= b@.take(i as int).push(b@[i as int]));
        }
        out.push(b[i]);
        i = i + 1;
    }
    proof {
        assert(b@.take(b@.len() as int) =~= b@);
    }
}

/// Appends the canonical serialization of `v` to `out`.
pub fn encode_into(v: &JsonValue, out: &mut Vec<u8>)
    ensures
        final(out)@ == old(out)@ + encoding(*v),
    decreases v,
{
    let ghost start = out@;
    match v {
        JsonValue::Null => {
            out.push(0u8);
        },
        JsonValue::Bool(b) => {
            out.push(1u8);
            out.push(if *b { 1u8 } else { 0u8 });
        },
        JsonValue::Number(n) => {
            out.push(2u8);
            let shifted: u64 = (*n as i128 + 0x8000_0000_0000_0000i128) as u64;
            push_be(out, shifted, 8);
        },
        JsonValue::Decimal(s) => {
            out.push(3u8);
            push_text(out, s.as_str());
        },
        JsonValue::Text(s) => {
            out.push(4u8);
            push_text(out, s.as_str());
        },
        JsonValue::Array(x) => {
            out.push(5u8);
            push_be(out, x.len() as u64, 8);
            let ghost head = out@;
            let mut i: usize = 0;
            while i < x.len()
                invariant
                    i <= x@.len(),
                    *v is Array && (*v)->Array_0 == *x,
                    out@ == head + items_encoding(*v, i as int),
                decreases x@.len() - i,
            {
                proof {
                    assert(decreases_to!(*v => (*v)->Array_0));
                    assert(decreases_to!(*x => x@));
                    assert(decreases_to!(x@ => x@[i as int]));
                }
                encode_into(&x[i], out);
                i = i + 1;
                proof {
                    assert(out@ =~= head + items_encoding(*v, i as int));
                }
            }
        },
        JsonValue::Object(e) => {
            out.push(6u8);
            push_be(out, e.len() as u64, 8);
            let ghost head = out@;
            let mut i: usize = 0;
            while i < e.len()
                invariant
                    i <= e@.len(),
                    *v is Object && (*v)->Object_0 == *e,
                    out@ == head + items_encoding(*v, i as int),
                decreases e@.len() - i,
            {
                proof {
                    assert(decreases_to!(*v => (*v)->Object_0));
                    assert(decreases_to!(*e => e@));
                    assert(decreases_to!(e@ => e@[i as int]));
                    assert(decreases_to!(e@[i as int] => e@[i as int].1));
                }
                push_text(out, e[i].0.as_str());
                encode_into(&e[i].1, out);
                i = i + 1;
                proof {
                    assert(out@ =~= head + items_encoding(*v, i as int));
                }
            }
        },
    }
    proof {
        assert(out@ =~= start + encoding(*v));
    }
}

/// The content hash of `v`.
pub fn content_hash(v: &JsonValue) -> (r: Vec<u8>)
    ensures
        r@ == content_hash_of(*v),
        r@.len() == 32,
{
    let mut bytes: Vec<u8> = Vec::new();
    encode_into(v, &mut bytes);
    proof {
        assert(bytes@ =~= encoding(*v));
    }
    sha256(bytes.as_slice())
}

} // verus!
