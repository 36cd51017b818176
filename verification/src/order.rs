use crate::text::{same_text, texts};
use vstd::prelude::*;
use vstd::string::StringSliceAdditionalSpecFns;
use vstd::utf8::{encode_utf8, encode_utf8_decode_utf8};

verus! {

/// Whether `x` and `y` hold the same bytes at every index below `k`.
pub open spec fn agree_before(x: Seq<u8>, y: Seq<u8>, k: int) -> bool {
    &&& 0 <= k <= x.len()
    &&& k <= y.len()
    &&& forall|i: int| 0 <= i < k ==> x[i] == y[i]
}

/// Whether, behind `k` bytes in which they agree, `x` ends before `y`
/// does or goes on with a smaller byte.
pub open spec fn smaller_at(x: Seq<u8>, y: Seq<u8>, k: int) -> bool {
    &&& agree_before(x, y, k)
    &&& k < y.len()
    &&& k < x.len() ==> x[k] < y[k]
}

/// The order of byte strings as in a dictionary.
pub open spec fn bytes_lt(x: Seq<u8>, y: Seq<u8>) -> bool {
    exists|k: int| smaller_at(x, y, k)
}

/// The order of texts: that of their UTF-8 encodings.
pub open spec fn precedes(a: Seq<char>, b: Seq<char>) -> bool {
    bytes_lt(encode_utf8(a), encode_utf8(b))
}

/// Whether each text of `names` precedes the next.
pub open spec fn ascending(names: Seq<Seq<char>>) -> bool {
    forall|i: int, j: int| 0 <= i < j < names.len() ==> precedes(names[i], names[j])
}

/// The texts of a finite set, each once, in ascending order.
pub open spec fn in_order(names: Set<Seq<char>>) -> Seq<Seq<char>> {
    choose|s: Seq<Seq<char>>| ascending(s) && s.to_set() == names
}

/// Where two byte strings first differ, or one of them ends, the order
/// between them is decided.
proof fn lemma_decided_at(x: Seq<u8>, y: Seq<u8>, k: int)
    requires
        agree_before(x, y, k),
        k == x.len() || k == y.len() || x[k] != y[k],
    ensures
        bytes_lt(x, y) == smaller_at(x, y, k),
{
    if bytes_lt(x, y) {
        let w = choose|w: int| smaller_at(x, y, w);
        if w < k {
            assert(x[w] == y[w]);
        } else if w > k {
            assert(x[k] == y[k]);
        }
    }
}

/// No byte string stands before itself.
proof fn lemma_bytes_lt_irreflexive(x: Seq<u8>)
    ensures
        !bytes_lt(x, x),
{
}

/// The order of byte strings is transitive.
proof fn lemma_bytes_lt_transitive(x: Seq<u8>, y: Seq<u8>, z: Seq<u8>)
    requires
        bytes_lt(x, y),
        bytes_lt(y, z),
    ensures
        bytes_lt(x, z),
{
    let k1 = choose|k: int| smaller_at(x, y, k);
    let k2 = choose|k: int| smaller_at(y, z, k);
    let k = if k1 <= k2 {
        k1
    } else {
        k2
    };
    assert(agree_before(x, z, k));
    if k1 < k2 {
        assert(y[k1] == z[k1]);
    } else if k2 < k1 {
        assert(x[k2] == y[k2]);
    }
    assert(smaller_at(x, z, k));
}

/// Of two different byte strings that agree in their first `k` bytes,
/// one stands before the other.
proof fn lemma_bytes_lt_total(x: Seq<u8>, y: Seq<u8>, k: int)
    requires
        agree_before(x, y, k),
        x != y,
    ensures
        bytes_lt(x, y) || bytes_lt(y, x),
    decreases x.len() - k,
{
    if k == x.len() || k == y.len() {
        if k == x.len() && k == y.len() {
            assert(x =~= y);
        } else if k == x.len() {
            assert(smaller_at(x, y, k));
        } else {
            assert(agree_before(y, x, k));
            assert(smaller_at(y, x, k));
        }
    } else if x[k] != y[k] {
        if x[k] < y[k] {
            assert(smaller_at(x, y, k));
        } else {
            assert(agree_before(y, x, k));
            assert(smaller_at(y, x, k));
        }
    } else {
        lemma_bytes_lt_total(x, y, k + 1);
    }
}

/// No text precedes itself.
pub proof fn lemma_precedes_irreflexive(a: Seq<char>)
    ensures
        !precedes(a, a),
{
    lemma_bytes_lt_irreflexive(encode_utf8(a));
}

/// A text that precedes one that precedes a third precedes the third.
pub proof fn lemma_precedes_transitive(a: Seq<char>, b: Seq<char>, c: Seq<char>)
    requires
        precedes(a, b),
        precedes(b, c),
    ensures
        precedes(a, c),
{
    lemma_bytes_lt_transitive(encode_utf8(a), encode_utf8(b), encode_utf8(c));
}

/// Of two different texts one precedes the other.
pub proof fn lemma_precedes_total(a: Seq<char>, b: Seq<char>)
    requires
        a != b,
    ensures
        precedes(a, b) || precedes(b, a),
{
    encode_utf8_decode_utf8(a);
    encode_utf8_decode_utf8(b);
    lemma_bytes_lt_total(encode_utf8(a), encode_utf8(b), 0);
}

/// Whether `a` stands before `b` in the order of texts.
pub fn comes_before(a: &str, b: &str) -> (r: bool)
    ensures
        r == precedes(a@, b@),
{
    let x = a.as_bytes();
    let y = b.as_bytes();
    let mut k: usize = 0;
    while k < x.len() && k < y.len()
        invariant
            x@ == a.spec_bytes(),
            y@ == b.spec_bytes(),
            agree_before(x@, y@, k as int),
        decreases x.len() - k,
    {
        if x[k] != y[k] {
            proof {
                lemma_decided_at(x@, y@, k as int);
            }
            return x[k] < y[k];
        }
        k += 1;
    }
    proof {
        lemma_decided_at(x@, y@, k as int);
    }
    k < y.len()
}

/// An ascending sequence names each of its texts once.
pub proof fn lemma_ascending_distinct(s: Seq<Seq<char>>)
    requires
        ascending(s),
    ensures
        s.no_duplicates(),
{
    assert forall|i: int, j: int| 0 <= i < s.len() && 0 <= j < s.len() && i != j implies s[i]
        != s[j] by {
        lemma_precedes_irreflexive(s[i]);
        if i < j {
            assert(precedes(s[i], s[j]));
        } else {
            assert(precedes(s[j], s[i]));
        }
    }
}

/// Two ascending sequences of the same texts are one sequence.
pub proof fn lemma_ascending_unique(p: Seq<Seq<char>>, q: Seq<Seq<char>>)
    requires
        ascending(p),
        ascending(q),
        p.to_set() == q.to_set(),
    ensures
        p == q,
    decreases p.len(),
{
    if p.len() == 0 {
        if q.len() > 0 {
            assert(q.to_set().contains(q[0]));
            assert(p.contains(q[0]));
        }
        assert(p =~= q);
    } else {
        let a = p.last();
        assert(p.to_set().contains(a));
        assert(q.contains(a));
        let b = q.last();
        assert(q.to_set().contains(b));
        assert(p.contains(b));
        let i = choose|i: int| 0 <= i < q.len() && q[i] == a;
        let j = choose|j: int| 0 <= j < p.len() && p[j] == b;
        if a != b {
            assert(precedes(a, b));
            assert(precedes(b, a));
            lemma_precedes_transitive(a, b, a);
            lemma_precedes_irreflexive(a);
        }
        let head_p = p.drop_last();
        let head_q = q.drop_last();
        lemma_ascending_distinct(p);
        lemma_ascending_distinct(q);
        assert forall|x: Seq<char>| head_p.to_set().contains(x) == head_q.to_set().contains(x) by {
            if head_p.contains(x) {
                let k = choose|k: int| 0 <= k < head_p.len() && head_p[k] == x;
                assert(p[k] == x);
                assert(p.to_set().contains(x));
                assert(q.contains(x));
                let m = choose|m: int| 0 <= m < q.len() && q[m] == x;
                assert(head_q[m] == x);
            }
            if head_q.contains(x) {
                let k = choose|k: int| 0 <= k < head_q.len() && head_q[k] == x;
                assert(q[k] == x);
                assert(q.to_set().contains(x));
                assert(p.contains(x));
                let m = choose|m: int| 0 <= m < p.len() && p[m] == x;
                assert(head_p[m] == x);
            }
        }
        assert(head_p.to_set() =~= head_q.to_set());
        lemma_ascending_unique(head_p, head_q);
        assert(p =~= head_p.push(a));
        assert(q =~= head_q.push(b));
    }
}

/// An ascending sequence is its set of texts taken in order.
pub proof fn lemma_in_order(s: Seq<Seq<char>>)
    requires
        ascending(s),
    ensures
        in_order(s.to_set()) == s,
{
    lemma_ascending_unique(in_order(s.to_set()), s);
}

/// A text put between those that precede it and those that it precedes
/// leaves the sequence ascending and joins its set.
proof fn lemma_insert_ascending(before: Seq<Seq<char>>, pos: int, name: Seq<char>)
    requires
        ascending(before),
        0 <= pos <= before.len(),
        forall|k: int| 0 <= k < pos ==> precedes(before[k], name),
        pos < before.len() ==> precedes(name, before[pos]),
    ensures
        ascending(before.insert(pos, name)),
        before.insert(pos, name).to_set() == before.to_set().insert(name),
{
    let after = before.insert(pos, name);
    before.insert_ensures(pos, name);
    assert forall|i: int, j: int| 0 <= i < j < after.len() implies precedes(
        after[i],
        after[j],
    ) by {
        if j < pos {
            assert(after[i] == before[i] && after[j] == before[j]);
        } else if j == pos {
            assert(after[i] == before[i]);
        } else if i == pos {
            assert(after[j] == before[j - 1]);
            if j - 1 > pos {
                assert(precedes(before[pos], before[j - 1]));
                lemma_precedes_transitive(name, before[pos], before[j - 1]);
            }
        } else if i < pos {
            assert(after[i] == before[i] && after[j] == before[j - 1]);
        } else {
            assert(after[i] == before[i - 1] && after[j] == before[j - 1]);
        }
    }
    assert forall|x: Seq<char>| after.to_set().contains(x) == before.to_set().insert(
        name,
    ).contains(x) by {
        if after.contains(x) {
            let k = choose|k: int| 0 <= k < after.len() && after[k] == x;
            if k < pos {
                assert(before[k] == x);
            } else if k > pos {
                assert(before[k - 1] == x);
            }
        }
        if before.contains(x) {
            let k = choose|k: int| 0 <= k < before.len() && before[k] == x;
            if k < pos {
                assert(after[k] == x);
            } else {
                assert(after[k + 1] == x);
            }
        }
        if x == name {
            assert(after[pos] == x);
        }
    }
    assert(after.to_set() =~= before.to_set().insert(name));
}

/// Puts `name` at its place in an ascending sequence, unless it stands
/// there already.
fn place(out: &mut Vec<String>, name: String)
    requires
        ascending(texts(old(out)@)),
    ensures
        ascending(texts(final(out)@)),
        texts(final(out)@).to_set() == texts(old(out)@).to_set().insert(name@),
{
    let ghost before = texts(out@);
    let mut pos: usize = 0;
    while pos < out.len() && comes_before(out[pos].as_str(), name.as_str())
        invariant
            pos <= out.len(),
            out@ == old(out)@,
            before == texts(out@),
            forall|k: int| 0 <= k < pos ==> precedes(before[k], name@),
        decreases out.len() - pos,
    {
        pos += 1;
    }
    if pos < out.len() && same_text(out[pos].as_str(), name.as_str()) {
        assert(before.contains(name@)) by {
            assert(before[pos as int] == name@);
        }
        assert(before.to_set().insert(name@) =~= before.to_set());
        return ;
    }
    proof {
        if pos < before.len() {
            lemma_precedes_total(before[pos as int], name@);
        }
        lemma_insert_ascending(before, pos as int, name@);
    }
    out.insert(pos, name);
    assert(texts(out@) =~= before.insert(pos as int, name@));
}

/// The texts of `names`, each once, in ascending order.
pub fn sorted(names: &Vec<String>) -> (r: Vec<String>)
    ensures
        texts(r@) == in_order(texts(names@).to_set()),
        ascending(texts(r@)),
        texts(r@).to_set() == texts(names@).to_set(),
{
    let ghost all = texts(names@);
    let mut out: Vec<String> = Vec::new();
    let mut i: usize = 0;
    assert(texts(out@).to_set() =~= all.take(0).to_set());
    while i < names.len()
        invariant
            i <= names.len(),
            all == texts(names@),
            ascending(texts(out@)),
            texts(out@).to_set() == all.take(i as int).to_set(),
        decreases names.len() - i,
    {
        place(&mut out, names[i].clone());
        proof {
            let more = all.take(i + 1);
            assert(more =~= all.take(i as int).push(all[i as int]));
            all.take(i as int).lemma_push_to_set_commute(all[i as int]);
        }
        i += 1;
    }
    proof {
        assert(all.take(i as int) =~= all);
        lemma_in_order(texts(out@));
    }
    out
}

} // verus!
