//! Strings in the order of their bytes.

use vstd::prelude::*;
use vstd::utf8::*;
use crate::text;

verus! {

/// Whether `a` comes before `b`, byte by byte; a prefix comes first.
pub open spec fn bytes_before(a: Seq<u8>, b: Seq<u8>) -> bool
    decreases a.len(),
{
    if b.len() == 0 {
        false
    } else if a.len() == 0 {
        true
    } else if a[0] != b[0] {
        a[0] < b[0]
    } else {
        bytes_before(a.skip(1), b.skip(1))
    }
}

/// Whether `a` comes before `b`.
pub open spec fn before(a: Seq<char>, b: Seq<char>) -> bool {
    bytes_before(encode_utf8(a), encode_utf8(b))
}

/// Of two different strings, one comes before the other, and not the other way
/// round.
pub proof fn lemma_bytes_before(a: Seq<u8>, b: Seq<u8>)
    ensures
        !(bytes_before(a, b) && bytes_before(b, a)),
        a != b ==> bytes_before(a, b) || bytes_before(b, a),
    decreases a.len(),
{
    if a.len() > 0 && b.len() > 0 && a[0] == b[0] {
        lemma_bytes_before(a.skip(1), b.skip(1));
        if a.skip(1) == b.skip(1) {
            assert(a =~= seq![a[0]] + a.skip(1));
            assert(b =~= seq![b[0]] + b.skip(1));
        }
    } else if a.len() == 0 && b.len() == 0 {
        assert(a =~= b);
    }
}

/// What comes before something that does not come after a third comes before the
/// third too.
pub proof fn lemma_bytes_chain(a: Seq<u8>, b: Seq<u8>, c: Seq<u8>)
    requires
        !bytes_before(b, a),
        !bytes_before(c, b),
    ensures
        !bytes_before(c, a),
    decreases a.len(),
{
    if a.len() > 0 && b.len() > 0 && c.len() > 0 && a[0] == b[0] && b[0] == c[0] {
        lemma_bytes_chain(a.skip(1), b.skip(1), c.skip(1));
    }
}

/// Whether the bytes of `a` come before those of `b`.
fn slice_before(a: &[u8], b: &[u8]) -> (r: bool)
    ensures
        r == bytes_before(a@, b@),
{
    let mut i: usize = 0;
    proof {
        assert(a@.skip(0) =~= a@);
        assert(b@.skip(0) =~= b@);
    }
    while i < a.len() && i < b.len()
        invariant
            i <= a@.len(),
            i <= b@.len(),
            bytes_before(a@, b@) == bytes_before(a@.skip(i as int), b@.skip(i as int)),
        decreases a@.len() - i,
    {
        proof {
            assert(a@.skip(i as int)[0] == a@[i as int]);
            assert(b@.skip(i as int)[0] == b@[i as int]);
            assert(a@.skip(i as int).skip(1) =~= a@.skip(i as int + 1));
            assert(b@.skip(i as int).skip(1) =~= b@.skip(i as int + 1));
        }
        if a[i] != b[i] {
            return a[i] < b[i];
        }
        i += 1;
    }
    i < b.len()
}

/// Whether `a` comes before `b`.
pub fn comes_before(a: &str, b: &str) -> (r: bool)
    ensures
        r == before(a@, b@),
{
    slice_before(a.as_bytes(), b.as_bytes())
}

/// Whether nothing stands after something that it comes before.
pub open spec fn in_order(v: Seq<Seq<char>>) -> bool {
    forall|i: int, j: int| 0 <= i < j < v.len() ==> !before(#[trigger] v[j], #[trigger] v[i])
}

/// Whether `r` holds what `v` holds, in order. There is only one such sequence.
pub open spec fn sorted_of(v: Seq<Seq<char>>, r: Seq<Seq<char>>) -> bool {
    in_order(r) && r.to_multiset() == v.to_multiset()
}

/// Puts `s` where it belongs.
fn put(v: &mut Vec<String>, s: String)
    requires
        in_order(text::views(old(v)@)),
    ensures
        in_order(text::views(final(v)@)),
        text::views(final(v)@).to_multiset() == text::views(old(v)@).to_multiset().insert(s@),
{
    let mut i: usize = 0;
    let ghost was = text::views(v@);
    while i < v.len() && !comes_before(s.as_str(), v[i].as_str())
        invariant
            was == text::views(v@),
            i <= v@.len(),
            forall|j: int| 0 <= j < i ==> !before(s@, #[trigger] was[j]),
        decreases v@.len() - i,
    {
        proof {
            assert(was[i as int] == v@[i as int]@);
        }
        i += 1;
    }
    let ghost sv = s@;
    proof {
        if i < v@.len() {
            assert(was[i as int] == v@[i as int]@);
        }
    }
    v.insert(i, s);
    proof {
        let now = text::views(v@);
        assert(now =~= was.insert(i as int, sv));
        broadcast use vstd::seq_lib::group_to_multiset_ensures;

        assert(now.to_multiset() =~= was.to_multiset().insert(sv));
        assert forall|a: int, b: int| 0 <= a < b < now.len() implies !before(
            #[trigger] now[b],
            #[trigger] now[a],
        ) by {
            if a < i && b == i {
                assert(now[a] == was[a]);
            } else if a == i && b > i {
                assert(now[b] == was[b - 1]);
                let first = was[i as int];
                lemma_bytes_before(encode_utf8(sv), encode_utf8(first));
                if b - 1 > i {
                    assert(!before(was[b - 1], was[i as int]));
                    lemma_bytes_chain(encode_utf8(sv), encode_utf8(first), encode_utf8(was[b - 1]));
                }
            } else if a < i && b > i {
                assert(now[a] == was[a] && now[b] == was[b - 1]);
            } else if a > i {
                assert(now[a] == was[a - 1] && now[b] == was[b - 1]);
            } else {
                assert(now[a] == was[a] && now[b] == was[b]);
            }
        }
    }
}

/// What `v` holds, in order.
pub fn sorted(v: Vec<String>) -> (r: Vec<String>)
    ensures
        sorted_of(text::views(v@), text::views(r@)),
{
    let mut out: Vec<String> = Vec::new();
    let mut i: usize = 0;
    let ghost all = text::views(v@);
    proof {
        broadcast use vstd::seq_lib::group_to_multiset_ensures;

        assert(text::views(out@) =~= all.take(0));
    }
    while i < v.len()
        invariant
            all == text::views(v@),
            i <= v@.len(),
            in_order(text::views(out@)),
            text::views(out@).to_multiset() == all.take(i as int).to_multiset(),
        decreases v@.len() - i,
    {
        put(&mut out, v[i].as_str().to_owned());
        proof {
            broadcast use vstd::seq_lib::group_to_multiset_ensures;

            assert(all.take(i as int + 1) =~= all.take(i as int).push(all[i as int]));
        }
        i += 1;
    }
    proof {
        assert(all.take(i as int) =~= all);
    }
    out
}

/// The order decides everything: two sequences in order that hold the same are
/// the same.
pub proof fn law_sorted_is_unique(v: Seq<Seq<char>>, a: Seq<Seq<char>>, b: Seq<Seq<char>>)
    requires
        sorted_of(v, a),
        sorted_of(v, b),
    ensures
        a == b,
{
    lemma_same_held(a, b);
}

proof fn lemma_same_held(a: Seq<Seq<char>>, b: Seq<Seq<char>>)
    requires
        in_order(a),
        in_order(b),
        a.to_multiset() == b.to_multiset(),
    ensures
        a == b,
    decreases a.len(),
{
    broadcast use vstd::seq_lib::group_to_multiset_ensures;

    assert(a.to_multiset().len() == a.len());
    assert(b.to_multiset().len() == b.len());
    if a.len() == 0 {
        assert(a =~= b);
    } else {
        let x = a.last();
        let y = b.last();
        assert(a.contains(a[a.len() - 1]));
        assert(b.contains(b[b.len() - 1]));
        assert(a.to_multiset().count(x) > 0);
        assert(b.to_multiset().count(y) > 0);
        assert(b.contains(x));
        assert(a.contains(y));
        let i = choose|i: int| 0 <= i < b.len() && b[i] == x;
        let j = choose|j: int| 0 <= j < a.len() && a[j] == y;
        if x != y {
            assert(!before(b[b.len() - 1], b[i]));
            assert(!before(a[a.len() - 1], a[j]));
            lemma_bytes_before(encode_utf8(x), encode_utf8(y));
            if encode_utf8(x) == encode_utf8(y) {
                text::lemma_same_bytes_same_chars(x, y);
            }
        }
        let a2 = a.drop_last();
        let b2 = b.drop_last();
        assert(a =~= a2.push(x));
        assert(b =~= b2.push(y));
        assert(a.to_multiset() =~= a2.to_multiset().insert(x));
        assert(b.to_multiset() =~= b2.to_multiset().insert(y));
        assert(a2.to_multiset() =~= a.to_multiset().remove(x));
        assert(b2.to_multiset() =~= b.to_multiset().remove(y));
        assert forall|p: int, q: int| 0 <= p < q < a2.len() implies !before(
            #[trigger] a2[q],
            #[trigger] a2[p],
        ) by {
            assert(a2[q] == a[q] && a2[p] == a[p]);
        }
        assert forall|p: int, q: int| 0 <= p < q < b2.len() implies !before(
            #[trigger] b2[q],
            #[trigger] b2[p],
        ) by {
            assert(b2[q] == b[q] && b2[p] == b[p]);
        }
        lemma_same_held(a2, b2);
    }
}

/// Where two strings of ASCII first differ decides their order.
pub proof fn lemma_first_difference(a: Seq<char>, b: Seq<char>, k: int)
    requires
        is_ascii_chars(a),
        is_ascii_chars(b),
        0 <= k < a.len(),
        k < b.len(),
        a.take(k) == b.take(k),
        a[k] < b[k],
    ensures
        before(a, b),
{
    is_ascii_chars_encode_utf8(a);
    is_ascii_chars_encode_utf8(b);
    let x = encode_utf8(a);
    let y = encode_utf8(b);
    assert forall|i: int| 0 <= i < k implies #[trigger] x[i] == y[i] by {
        assert(a.take(k)[i] == a[i]);
        assert(b.take(k)[i] == b[i]);
        assert(a[i] == b[i]);
        assert(a[i] as u8 == x[i] && b[i] as u8 == y[i]);
    }
    assert(a[k] as u8 == x[k] && b[k] as u8 == y[k]);
    lemma_first_byte(x, y, k);
}

proof fn lemma_first_byte(x: Seq<u8>, y: Seq<u8>, k: int)
    requires
        0 <= k < x.len(),
        k < y.len(),
        forall|i: int| 0 <= i < k ==> #[trigger] x[i] == y[i],
        x[k] < y[k],
    ensures
        bytes_before(x, y),
    decreases k,
{
    if k > 0 {
        let p = x.skip(1);
        let q = y.skip(1);
        assert(x[0] == y[0]);
        assert forall|i: int| 0 <= i < k - 1 implies #[trigger] p[i] == q[i] by {
            assert(x[i + 1] == y[i + 1]);
        }
        lemma_first_byte(p, q, k - 1);
    }
}

/// The order is that of a dictionary: where two texts first differ, the smaller byte
/// comes first, and a text comes before every longer one that begins with it. Nothing
/// comes before itself.
pub proof fn law_order_of_a_dictionary(p: Seq<u8>, x: u8, y: u8, r: Seq<u8>, s: Seq<u8>)
    ensures
        bytes_before(p + seq![x] + r, p + seq![y] + s) <==> x < y || (x == y && bytes_before(r, s)),
        bytes_before(p, p + seq![x] + r),
        !bytes_before(p + seq![x] + r, p),
        !bytes_before(p, p),
    decreases p.len(),
{
    let a = p + seq![x] + r;
    let b = p + seq![y] + s;
    if p.len() == 0 {
        assert(a[0] == x && b[0] == y);
        assert(a.skip(1) =~= r);
        assert(b.skip(1) =~= s);
    } else {
        let q = p.skip(1);
        law_order_of_a_dictionary(q, x, y, r, s);
        assert(a[0] == p[0] && b[0] == p[0]);
        assert(a.skip(1) =~= q + seq![x] + r);
        assert(b.skip(1) =~= q + seq![y] + s);
    }
}

} // verus!
