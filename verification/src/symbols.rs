//! Symbol names as texts: equality, the order in which names are reported,
//! lists kept sorted without repeats, and joining.
use vstd::prelude::*;
use vstd::string::*;
use vstd::utf8::{encode_utf8, encode_utf8_decode_utf8};

verus! {

/// The texts of a list of strings.
pub open spec fn texts(v: Seq<String>) -> Seq<Seq<char>> {
    Seq::new(v.len(), |i: int| v[i]@)
}

/// The strict lexicographic order of byte strings.
pub open spec fn bytes_precede(a: Seq<u8>, b: Seq<u8>) -> bool
    decreases a.len(),
{
    if b.len() == 0 {
        false
    } else if a.len() == 0 {
        true
    } else if a[0] != b[0] {
        a[0] < b[0]
    } else {
        bytes_precede(a.drop_first(), b.drop_first())
    }
}

/// The strict order of texts in which names are reported: the order of
/// `str`, which compares the UTF-8 encodings byte by byte.
pub open spec fn precedes(a: Seq<char>, b: Seq<char>) -> bool {
    bytes_precede(encode_utf8(a), encode_utf8(b))
}

/// Each name precedes every later one: sorted, with no name twice.
pub open spec fn strictly_sorted(names: Seq<Seq<char>>) -> bool {
    forall|i: int, j: int| 0 <= i < j < names.len() ==> precedes(#[trigger] names[i], #[trigger] names[j])
}

/// The names, in order, with `sep` between each two.
pub open spec fn joined(names: Seq<Seq<char>>, sep: Seq<char>) -> Seq<char>
    decreases names.len(),
{
    if names.len() == 0 {
        Seq::empty()
    } else if names.len() == 1 {
        names[0]
    } else {
        joined(names.drop_last(), sep) + sep + names.last()
    }
}

/// No byte string precedes itself.
pub proof fn lemma_bytes_precede_irreflexive(a: Seq<u8>)
    ensures
        !bytes_precede(a, a),
    decreases a.len(),
{
    if a.len() > 0 {
        lemma_bytes_precede_irreflexive(a.drop_first());
    }
}

/// The order of byte strings is transitive.
pub proof fn lemma_bytes_precede_transitive(a: Seq<u8>, b: Seq<u8>, c: Seq<u8>)
    requires
        bytes_precede(a, b),
        bytes_precede(b, c),
    ensures
        bytes_precede(a, c),
    decreases a.len(),
{
    if a.len() > 0 && a[0] == b[0] && b[0] == c[0] {
        lemma_bytes_precede_transitive(a.drop_first(), b.drop_first(), c.drop_first());
    }
}

/// Of two distinct byte strings one precedes the other.
pub proof fn lemma_bytes_precede_total(a: Seq<u8>, b: Seq<u8>)
    ensures
        a == b || bytes_precede(a, b) || bytes_precede(b, a),
    decreases a.len(),
{
    if a.len() > 0 && b.len() > 0 && a[0] == b[0] {
        lemma_bytes_precede_total(a.drop_first(), b.drop_first());
        if a.drop_first() == b.drop_first() {
            assert(a =~= seq![a[0]] + a.drop_first());
            assert(b =~= seq![b[0]] + b.drop_first());
        }
    } else if a.len() == 0 && b.len() == 0 {
        assert(a =~= b);
    }
}

/// Two texts with the same encoding are the same text.
pub proof fn lemma_encoding_tells_texts_apart(a: Seq<char>, b: Seq<char>)
    requires
        encode_utf8(a) == encode_utf8(b),
    ensures
        a == b,
{
    encode_utf8_decode_utf8(a);
    encode_utf8_decode_utf8(b);
}

/// No text precedes itself.
pub proof fn lemma_precedes_irreflexive(a: Seq<char>)
    ensures
        !precedes(a, a),
{
    lemma_bytes_precede_irreflexive(encode_utf8(a));
}

/// The order of texts is transitive.
pub proof fn lemma_precedes_transitive(a: Seq<char>, b: Seq<char>, c: Seq<char>)
    requires
        precedes(a, b),
        precedes(b, c),
    ensures
        precedes(a, c),
{
    lemma_bytes_precede_transitive(encode_utf8(a), encode_utf8(b), encode_utf8(c));
}

/// Of two distinct texts one precedes the other.
pub proof fn lemma_precedes_total(a: Seq<char>, b: Seq<char>)
    ensures
        a == b || precedes(a, b) || precedes(b, a),
{
    lemma_bytes_precede_total(encode_utf8(a), encode_utf8(b));
    if encode_utf8(a) == encode_utf8(b) {
        lemma_encoding_tells_texts_apart(a, b);
    }
}

/// A sorted list without repeats is fixed by the names in it: two such lists
/// that hold the same names are the same list.
pub proof fn lemma_sorted_names_unique(a: Seq<Seq<char>>, b: Seq<Seq<char>>)
    requires
        strictly_sorted(a),
        strictly_sorted(b),
        forall|x: Seq<char>| a.contains(x) <==> b.contains(x),
    ensures
        a == b,
    decreases a.len(),
{
    if a.len() == 0 {
        if b.len() > 0 {
            assert(b.contains(b[0]));
        }
        assert(a =~= b);
    } else if b.len() == 0 {
        assert(a.contains(a[0]));
    } else {
        // The greatest name of each list is its last one, so the two agree.
        let la = a.last();
        let lb = b.last();
        assert(a.contains(la));
        assert(b.contains(lb));
        let ia = choose|i: int| 0 <= i < b.len() && b[i] == la;
        let ib = choose|i: int| 0 <= i < a.len() && a[i] == lb;
        lemma_precedes_irreflexive(la);
        lemma_precedes_irreflexive(lb);
        if la != lb {
            assert(ia < b.len() - 1);
            assert(ib < a.len() - 1);
            assert(precedes(b[ia], b[b.len() - 1]));
            assert(precedes(a[ib], a[a.len() - 1]));
            lemma_precedes_transitive(la, lb, la);
        }
        let a0 = a.drop_last();
        let b0 = b.drop_last();
        assert forall|x: Seq<char>| a0.contains(x) <==> b0.contains(x) by {
            if a0.contains(x) {
                let i = choose|i: int| 0 <= i < a0.len() && a0[i] == x;
                assert(a[i] == x);
                assert(precedes(a[i], a[a.len() - 1]));
                assert(a.contains(x));
                let j = choose|j: int| 0 <= j < b.len() && b[j] == x;
                assert(j < b.len() - 1);
                assert(b0[j] == x);
            }
            if b0.contains(x) {
                let i = choose|i: int| 0 <= i < b0.len() && b0[i] == x;
                assert(b[i] == x);
                assert(precedes(b[i], b[b.len() - 1]));
                assert(b.contains(x));
                let j = choose|j: int| 0 <= j < a.len() && a[j] == x;
                assert(j < a.len() - 1);
                assert(a0[j] == x);
            }
        }
        assert(strictly_sorted(a0)) by {
            assert forall|i: int, j: int| 0 <= i < j < a0.len() implies precedes(
                #[trigger] a0[i],
                #[trigger] a0[j],
            ) by {
                assert(precedes(a[i], a[j]));
            }
        }
        assert(strictly_sorted(b0)) by {
            assert forall|i: int, j: int| 0 <= i < j < b0.len() implies precedes(
                #[trigger] b0[i],
                #[trigger] b0[j],
            ) by {
                assert(precedes(b[i], b[j]));
            }
        }
        lemma_sorted_names_unique(a0, b0);
        assert(a =~= a0.push(la));
        assert(b =~= b0.push(lb));
    }
}

/// The first `i + 1` names hold what the first `i` hold, and the name at `i`.
pub proof fn lemma_take_contains(names: Seq<Seq<char>>, i: int)
    requires
        0 <= i < names.len(),
    ensures
        forall|x: Seq<char>|
            names.take(i + 1).contains(x) <==> (names.take(i).contains(x) || x == names[i]),
{
    let done = names.take(i);
    let next = names.take(i + 1);
    assert forall|x: Seq<char>| next.contains(x) <==> (done.contains(x) || x == names[i]) by {
        if next.contains(x) {
            let j = choose|j: int| 0 <= j < next.len() && next[j] == x;
            if j < i {
                assert(done[j] == x);
            }
        }
        if done.contains(x) {
            let j = choose|j: int| 0 <= j < done.len() && done[j] == x;
            assert(next[j] == x);
        }
        if x == names[i] {
            assert(next[i] == x);
        }
    }
}

/// Whether the two strings hold the same text.
pub fn text_eq(a: &str, b: &str) -> (r: bool)
    ensures
        r == (a@ == b@),
{
    let x = a.as_bytes();
    let y = b.as_bytes();
    if x.len() != y.len() {
        return false;
    }
    let mut i: usize = 0;
    while i < x.len()
        invariant
            i <= x.len(),
            x@.len() == y@.len(),
            x@ == encode_utf8(a@),
            y@ == encode_utf8(b@),
            forall|j: int| 0 <= j < i ==> x@[j] == y@[j],
        decreases x.len() - i,
    {
        if x[i] != y[i] {
            return false;
        }
        i += 1;
    }
    proof {
        assert(x@ =~= y@);
        lemma_encoding_tells_texts_apart(a@, b@);
    }
    true
}

/// Whether `a` comes before `b` in the order of `str`.
pub fn text_lt(a: &str, b: &str) -> (r: bool)
    ensures
        r == precedes(a@, b@),
{
    let x = a.as_bytes();
    let y = b.as_bytes();
    proof {
        assert(x@.skip(0) =~= x@);
        assert(y@.skip(0) =~= y@);
    }
    let mut i: usize = 0;
    while i < x.len() && i < y.len()
        invariant
            i <= x.len(),
            i <= y.len(),
            x@ == encode_utf8(a@),
            y@ == encode_utf8(b@),
            bytes_precede(x@, y@) == bytes_precede(x@.skip(i as int), y@.skip(i as int)),
        decreases x.len() - i,
    {
        proof {
            assert(x@.skip(i as int).drop_first() =~= x@.skip(i + 1));
            assert(y@.skip(i as int).drop_first() =~= y@.skip(i + 1));
            assert(x@.skip(i as int)[0] == x@[i as int]);
            assert(y@.skip(i as int)[0] == y@[i as int]);
        }
        if x[i] != y[i] {
            return x[i] < y[i];
        }
        i += 1;
    }
    x.len() < y.len()
}

/// Puts `name` into a sorted list without repeats, at its place, unless the
/// list holds it already.
fn insert_sorted(names: &mut Vec<String>, name: String)
    requires
        strictly_sorted(texts(old(names)@)),
    ensures
        strictly_sorted(texts(final(names)@)),
        forall|x: Seq<char>|
            texts(final(names)@).contains(x) <==> (texts(old(names)@).contains(x) || x == name@),
{
    let ghost before = texts(names@);
    let mut at: usize = 0;
    while at < names.len() && text_lt(names[at].as_str(), name.as_str())
        invariant
            at <= names.len(),
            texts(names@) == before,
            forall|j: int| 0 <= j < at ==> precedes(#[trigger] before[j], name@),
        decreases names.len() - at,
    {
        at += 1;
    }
    if at < names.len() && text_eq(names[at].as_str(), name.as_str()) {
        assert(before[at as int] == name@);
        assert forall|x: Seq<char>| before.contains(x) <==> (before.contains(x) || x == name@) by {
            if x == name@ {
                assert(before.contains(x));
            }
        }
    } else {
        let ghost key = name@;
        names.insert(at, name);
        let ghost after = texts(names@);
        assert(after =~= before.insert(at as int, key));
        assert forall|i: int, j: int| 0 <= i < j < after.len() implies precedes(
            #[trigger] after[i],
            #[trigger] after[j],
        ) by {
            if j == at {
                assert(after[i] == before[i]);
            } else if i == at {
                // The name at `at` did not precede `key` and is not `key`.
                lemma_precedes_total(before[at as int], key);
                if j - 1 > at {
                    assert(precedes(before[at as int], before[j - 1]));
                    lemma_precedes_transitive(key, before[at as int], before[j - 1]);
                }
            } else {
                let bi = if i < at { i } else { i - 1 };
                let bj = if j < at { j } else { j - 1 };
                assert(precedes(before[bi], before[bj]));
            }
        }
        assert forall|x: Seq<char>| after.contains(x) <==> (before.contains(x) || x == key) by {
            if after.contains(x) {
                let i = choose|i: int| 0 <= i < after.len() && after[i] == x;
                if i < at {
                    assert(before[i] == x);
                } else if i > at {
                    assert(before[i - 1] == x);
                }
            }
            if before.contains(x) {
                let i = choose|i: int| 0 <= i < before.len() && before[i] == x;
                if i < at {
                    assert(after[i] == x);
                } else {
                    assert(after[i + 1] == x);
                }
            }
            if x == key {
                assert(after[at as int] == x);
            }
        }
    }
}

/// The names of `names`, sorted, each of them once.
pub fn sorted_names(names: &Vec<String>) -> (r: Vec<String>)
    ensures
        strictly_sorted(texts(r@)),
        forall|x: Seq<char>| texts(r@).contains(x) <==> texts(names@).contains(x),
{
    let mut out: Vec<String> = Vec::new();
    let mut i: usize = 0;
    while i < names.len()
        invariant
            i <= names.len(),
            strictly_sorted(texts(out@)),
            forall|x: Seq<char>| texts(out@).contains(x) <==> texts(names@).take(i as int).contains(x),
        decreases names.len() - i,
    {
        proof {
            lemma_take_contains(texts(names@), i as int);
            assert(texts(names@)[i as int] == names@[i as int]@);
        }
        insert_sorted(&mut out, names[i].clone());
        i += 1;
    }
    assert(texts(names@).take(names.len() as int) =~= texts(names@));
    out
}

/// The strings of `names`, in order, with `sep` between each two.
pub fn join(names: &Vec<String>, sep: &str) -> (r: String)
    ensures
        r@ == joined(texts(names@), sep@),
{
    let mut out = String::new();
    let mut i: usize = 0;
    while i < names.len()
        invariant
            i <= names.len(),
            out@ == joined(texts(names@).take(i as int), sep@),
        decreases names.len() - i,
    {
        let ghost done = texts(names@).take(i as int);
        let ghost next = texts(names@).take(i + 1);
        assert(next.drop_last() =~= done);
        assert(next.last() == names@[i as int]@);
        if i > 0 {
            out.append(sep);
        }
        out.append(names[i].as_str());
        assert(out@ =~= joined(next, sep@)) by {
            if i == 0 {
                assert(joined(done, sep@) =~= Seq::<char>::empty());
            }
        }
        i += 1;
    }
    assert(texts(names@).take(names.len() as int) =~= texts(names@));
    out
}

} // verus!
