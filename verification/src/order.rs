//! The order of texts: by their UTF-8 bytes, one after the other.

use vstd::prelude::*;
use vstd::utf8::*;

verus! {

/// Whether `a` comes before `b`: the first byte that differs decides, and a proper
/// beginning comes before the whole.
pub open spec fn bytes_less(a: Seq<u8>, b: Seq<u8>) -> bool
    decreases b.len(),
{
    if b.len() == 0 {
        false
    } else if a.len() == 0 {
        true
    } else if a[0] != b[0] {
        a[0] < b[0]
    } else {
        bytes_less(a.drop_first(), b.drop_first())
    }
}

/// Whether the text `a` comes before the text `b`.
pub open spec fn text_less(a: Seq<char>, b: Seq<char>) -> bool {
    bytes_less(encode_utf8(a), encode_utf8(b))
}

/// Each of these texts comes before those after it.
pub open spec fn ascending(texts: Seq<Seq<char>>) -> bool {
    forall|i: int, j: int|
        0 <= i < j < texts.len() ==> text_less(#[trigger] texts[i], #[trigger] texts[j])
}

/// The order is strict and transitive, and of two different sequences of bytes one comes first.
proof fn bytes_less_is_an_order(a: Seq<u8>, b: Seq<u8>, c: Seq<u8>)
    ensures
        !bytes_less(a, a),
        bytes_less(a, b) ==> !bytes_less(b, a),
        bytes_less(a, b) && bytes_less(b, c) ==> bytes_less(a, c),
        bytes_less(a, b) || bytes_less(b, a) || a == b,
    decreases a.len() + b.len() + c.len(),
{
    let (a1, b1, c1) = (a.drop_first(), b.drop_first(), c.drop_first());
    if a.len() > 0 && b.len() > 0 {
        if c.len() > 0 {
            bytes_less_is_an_order(a1, b1, c1);
        } else {
            bytes_less_is_an_order(a1, b1, c);
        }
        if a[0] == b[0] && a1 == b1 {
            assert(a =~= seq![a[0]] + a1);
            assert(b =~= seq![b[0]] + b1);
        }
    } else if a.len() > 0 {
        bytes_less_is_an_order(a1, b, c);
    } else if b.len() == 0 {
        assert(a =~= b);
    }
}

/// Texts are strictly and totally ordered: nothing comes before itself, the order is
/// transitive, and of two different texts exactly one comes first.
pub proof fn text_less_is_an_order(a: Seq<char>, b: Seq<char>, c: Seq<char>)
    ensures
        !text_less(a, a),
        text_less(a, b) ==> !text_less(b, a),
        text_less(a, b) && text_less(b, c) ==> text_less(a, c),
        text_less(a, b) || text_less(b, a) || a == b,
{
    bytes_less_is_an_order(encode_utf8(a), encode_utf8(b), encode_utf8(c));
    encode_utf8_decode_utf8(a);
    encode_utf8_decode_utf8(b);
}

/// Texts can be put in order in one way only.
pub proof fn ascending_in_one_way(a: Seq<Seq<char>>, b: Seq<Seq<char>>)
    requires
        ascending(a),
        ascending(b),
        forall|text: Seq<char>| a.contains(text) <==> b.contains(text),
    ensures
        a == b,
    decreases a.len(),
{
    if a.len() == 0 || b.len() == 0 {
        if a.len() > 0 {
            assert(a.contains(a[0]));
        }
        if b.len() > 0 {
            assert(b.contains(b[0]));
        }
        assert(a =~= b);
    } else {
        let (x, y) = (a.last(), b.last());
        assert(a.contains(x) && b.contains(y));
        let i = a.index_of(y);
        let j = b.index_of(x);
        assert(a[i] == y && b[j] == x);
        text_less_is_an_order(x, y, x);
        assert(x == y);
        let (c, d) = (a.drop_last(), b.drop_last());
        assert forall|text: Seq<char>| c.contains(text) <==> d.contains(text) by {
            all_but_the_last(a, text);
            all_but_the_last(b, text);
        }
        ascending_in_one_way(c, d);
        assert(a =~= c.push(x));
        assert(b =~= d.push(x));
    }
}

/// Of texts in order, those before the last are those that differ from it.
proof fn all_but_the_last(texts: Seq<Seq<char>>, text: Seq<char>)
    requires
        ascending(texts),
        texts.len() > 0,
    ensures
        texts.drop_last().contains(text) <==> texts.contains(text) && text != texts.last(),
{
    if texts.drop_last().contains(text) {
        let i = texts.drop_last().index_of(text);
        assert(texts[i] == text);
        assert(text_less(texts[i], texts[texts.len() - 1]));
        text_less_is_an_order(text, text, text);
    }
    if texts.contains(text) && text != texts.last() {
        let i = texts.index_of(text);
        assert(texts.drop_last()[i] == text);
    }
}

/// Whether `a` comes before `b`.
pub fn comes_before(a: &str, b: &str) -> (r: bool)
    ensures
        r == text_less(a@, b@),
{
    let x: &[u8] = a.as_bytes();
    let y: &[u8] = b.as_bytes();
    let mut i: usize = 0;
    proof {
        assert(x@.skip(0) =~= x@);
        assert(y@.skip(0) =~= y@);
    }
    while i < x.len() && i < y.len() && x[i] == y[i]
        invariant
            i <= x@.len(),
            i <= y@.len(),
            bytes_less(x@.skip(i as int), y@.skip(i as int)) == bytes_less(x@, y@),
        decreases x@.len() - i,
    {
        proof {
            assert(x@.skip(i as int).drop_first() =~= x@.skip(i + 1));
            assert(y@.skip(i as int).drop_first() =~= y@.skip(i + 1));
        }
        i = i + 1;
    }
    i < y.len() && (i == x.len() || x[i] < y[i])
}

/// What comes first is decided at the first place where the bytes of two texts differ: by the
/// smaller byte there, or by one of the texts having none.
pub proof fn first_difference_decides(a: Seq<char>, b: Seq<char>, k: int)
    requires
        0 <= k <= encode_utf8(a).len(),
        k <= encode_utf8(b).len(),
        forall|i: int| 0 <= i < k ==> encode_utf8(a)[i] == #[trigger] encode_utf8(b)[i],
    ensures
        k == encode_utf8(b).len() ==> !text_less(a, b),
        k == encode_utf8(a).len() && k < encode_utf8(b).len() ==> text_less(a, b),
        k < encode_utf8(a).len() && k < encode_utf8(b).len() && encode_utf8(a)[k] < encode_utf8(
            b,
        )[k] ==> text_less(a, b),
        k < encode_utf8(a).len() && k < encode_utf8(b).len() && encode_utf8(a)[k] > encode_utf8(
            b,
        )[k] ==> !text_less(a, b),
{
    common_start_does_not_matter(encode_utf8(a), encode_utf8(b), k);
}

/// Bytes that two sequences start with alike decide nothing.
proof fn common_start_does_not_matter(a: Seq<u8>, b: Seq<u8>, k: int)
    requires
        0 <= k <= a.len(),
        k <= b.len(),
        forall|i: int| 0 <= i < k ==> a[i] == #[trigger] b[i],
    ensures
        bytes_less(a, b) == bytes_less(a.skip(k), b.skip(k)),
    decreases k,
{
    if k == 0 {
        assert(a.skip(0) =~= a);
        assert(b.skip(0) =~= b);
    } else {
        let (x, y) = (a.drop_first(), b.drop_first());
        assert(a[0] == b[0]);
        assert forall|i: int| 0 <= i < k - 1 implies x[i] == #[trigger] y[i] by {
            assert(a[i + 1] == b[i + 1]);
        }
        common_start_does_not_matter(x, y, k - 1);
        assert(x.skip(k - 1) =~= a.skip(k));
        assert(y.skip(k - 1) =~= b.skip(k));
    }
}

} // verus!
