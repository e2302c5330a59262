use vstd::prelude::*;
use crate::text::chars_of;
use crate::value::view_labels;

verus! {

broadcast use vstd::std_specs::vec::group_vec_axioms;

/// `k` is where `a` and `b` first differ: they agree before it, and it is the end of one of them
/// or a position where their characters differ.
pub open spec fn first_difference(a: Seq<char>, b: Seq<char>, k: int) -> bool {
    &&& 0 <= k <= a.len()
    &&& k <= b.len()
    &&& forall|j: int| 0 <= j < k ==> a[j] == b[j]
    &&& (k == a.len() || k == b.len() || a[k] != b[k])
}

/// The order of texts by their characters' code points, a prefix first: the order of strings
/// as keys of a sorted map.
pub open spec fn text_less(a: Seq<char>, b: Seq<char>) -> bool {
    exists|k: int| #[trigger] first_difference(a, b, k) && (
        (k == a.len() && k < b.len()) || (k < a.len() && k < b.len() && (a[k] as u32) < (b[k] as u32)))
}

/// Texts in strictly increasing order.
pub open spec fn sorted_texts(l: Seq<Seq<char>>) -> bool {
    forall|i: int, j: int| 0 <= i < j < l.len() ==> text_less(#[trigger] l[i], #[trigger] l[j])
}

/// A character's code point fits in 32 bits.
proof fn lemma_char_code(c: char)
    ensures
        (c as u32) as int == c as int,
{
}

/// Two texts first differ at one place only.
pub proof fn lemma_first_difference_unique(a: Seq<char>, b: Seq<char>, k1: int, k2: int)
    requires
        first_difference(a, b, k1),
        first_difference(a, b, k2),
    ensures
        k1 == k2,
{
    if k1 < k2 {
        assert(a[k1] == b[k1]);
    } else if k2 < k1 {
        assert(a[k2] == b[k2]);
    }
}

/// There is a place where two texts first differ.
pub proof fn lemma_first_difference_exists(a: Seq<char>, b: Seq<char>, i: int)
    requires
        0 <= i <= a.len(),
        i <= b.len(),
        forall|j: int| 0 <= j < i ==> a[j] == b[j],
    ensures
        exists|k: int| #[trigger] first_difference(a, b, k),
    decreases a.len() - i,
{
    if i == a.len() || i == b.len() || a[i] != b[i] {
        assert(first_difference(a, b, i));
    } else {
        lemma_first_difference_exists(a, b, i + 1);
    }
}

/// No text is before itself.
pub proof fn lemma_text_less_irreflexive(a: Seq<char>)
    ensures
        !text_less(a, a),
{
    if text_less(a, a) {
        let k = choose|k: int| #[trigger] first_difference(a, a, k) && (
            (k == a.len() && k < a.len()) || (k < a.len() && k < a.len() && (a[k] as u32) < (a[k] as u32)));
    }
}

/// Of two different texts, one is before the other.
pub proof fn lemma_text_less_total(a: Seq<char>, b: Seq<char>)
    requires
        a != b,
    ensures
        text_less(a, b) || text_less(b, a),
{
    lemma_first_difference_exists(a, b, 0);
    let k = choose|k: int| #[trigger] first_difference(a, b, k);
    assert(first_difference(b, a, k));
    if k == a.len() && k == b.len() {
        assert(a =~= b);
    } else if k < a.len() && k < b.len() {
        assert(a[k] != b[k]);
        lemma_char_code(a[k]);
        lemma_char_code(b[k]);
        assert((a[k] as int) != (b[k] as int));
    }
}

/// The order is transitive.
pub proof fn lemma_text_less_transitive(a: Seq<char>, b: Seq<char>, c: Seq<char>)
    requires
        text_less(a, b),
        text_less(b, c),
    ensures
        text_less(a, c),
{
    let k1 = choose|k: int| #[trigger] first_difference(a, b, k) && (
        (k == a.len() && k < b.len()) || (k < a.len() && k < b.len() && (a[k] as u32) < (b[k] as u32)));
    let k2 = choose|k: int| #[trigger] first_difference(b, c, k) && (
        (k == b.len() && k < c.len()) || (k < b.len() && k < c.len() && (b[k] as u32) < (c[k] as u32)));
    if k1 < k2 {
        assert(first_difference(a, c, k1));
    } else if k2 < k1 {
        assert(first_difference(a, c, k2));
    } else {
        assert(first_difference(a, c, k1));
    }
}

/// Whether `a` comes before `b` in the order of texts.
pub fn text_before(a: &String, b: &String) -> (r: bool)
    ensures
        r == text_less(a@, b@),
{
    let x = chars_of(a.as_str());
    let y = chars_of(b.as_str());
    let mut i: usize = 0;
    while i < x.len() && i < y.len() && x[i] == y[i]
        invariant
            x@ == a@,
            y@ == b@,
            i <= x@.len(),
            i <= y@.len(),
            forall|j: int| 0 <= j < i ==> x@[j] == y@[j],
        decreases x@.len() - i,
    {
        i = i + 1;
    }
    proof {
        assert(first_difference(a@, b@, i as int));
    }
    let r = if i == x.len() {
        i < y.len()
    } else if i == y.len() {
        false
    } else {
        (x[i] as u32) < (y[i] as u32)
    };
    proof {
        if text_less(a@, b@) {
            let k = choose|k: int| #[trigger] first_difference(a@, b@, k) && (
                (k == a@.len() && k < b@.len()) || (k < a@.len() && k < b@.len() && (a@[k] as u32) < (b@[k] as u32)));
            lemma_first_difference_unique(a@, b@, k, i as int);
        }
    }
    r
}

/// Texts sorted in increasing order; they are those of `v`, each once.
pub fn sort_texts(v: Vec<String>) -> (r: Vec<String>)
    requires
        view_labels(v@).no_duplicates(),
    ensures
        view_labels(r@).to_set() == view_labels(v@).to_set(),
        view_labels(r@).no_duplicates(),
        sorted_texts(view_labels(r@)),
        r@.len() == v@.len(),
{
    let mut out: Vec<String> = Vec::new();
    let ghost all = view_labels(v@);
    for i in 0..v.len()
        invariant
            all == view_labels(v@),
            all.no_duplicates(),
            view_labels(out@).to_set() == all.take(i as int).to_set(),
            view_labels(out@).no_duplicates(),
            sorted_texts(view_labels(out@)),
            out@.len() == i,
    {
        let x = v[i].clone();
        let ghost o = view_labels(out@);
        proof {
            assert(all[i as int] == x@);
            assert(!o.contains(x@)) by {
                if o.contains(x@) {
                    assert(o.to_set().contains(x@));
                    assert(all.take(i as int).to_set().contains(x@));
                    let p = choose|p: int| 0 <= p < all.take(i as int).len() && all.take(i as int)[p] == x@;
                    assert(all[p] == all[i as int]);
                }
            }
        }
        let mut j: usize = 0;
        while j < out.len() && !text_before(&x, &out[j])
            invariant
                o == view_labels(out@),
                j <= out@.len(),
                forall|m: int| 0 <= m < j ==> !text_less(x@, #[trigger] o[m]),
            decreases out@.len() - j,
        {
            j = j + 1;
        }
        out.insert(j, x);
        proof {
            let n = view_labels(out@);
            assert(n =~= o.insert(j as int, x@));
            assert forall|m: int| 0 <= m < j implies text_less(#[trigger] o[m], x@) by {
                assert(o[m] != x@) by {
                    assert(o.contains(o[m]));
                }
                lemma_text_less_total(o[m], x@);
            }
            assert forall|a: int, b: int| 0 <= a < b < n.len() implies text_less(#[trigger] n[a], #[trigger] n[b]) by {
                if b < j {
                    assert(n[a] == o[a] && n[b] == o[b]);
                } else if b == j {
                    assert(n[a] == o[a]);
                } else if a == j {
                    assert(n[b] == o[b - 1]);
                    if b - 1 > j {
                        assert(text_less(o[j as int], o[b - 1]));
                        lemma_text_less_transitive(x@, o[j as int], o[b - 1]);
                    }
                } else if a < j {
                    assert(n[a] == o[a] && n[b] == o[b - 1]);
                } else {
                    assert(n[a] == o[a - 1] && n[b] == o[b - 1]);
                }
            }
            assert(n.no_duplicates()) by {
                assert forall|a: int, b: int| 0 <= a < b < n.len() implies n[a] != n[b] by {
                    lemma_text_less_irreflexive(n[a]);
                }
            }
            broadcast use vstd::seq_lib::group_seq_properties;
            assert(all.take(i + 1) =~= all.take(i as int).push(x@));
            assert(n.to_set() =~= all.take(i + 1).to_set()) by {
                assert forall|s: Seq<char>| n.to_set().contains(s) <==> all.take(i + 1).to_set().contains(s) by {
                    if n.contains(s) {
                        let p = choose|p: int| 0 <= p < n.len() && n[p] == s;
                        if p != j {
                            let q = if p < j { p } else { p - 1 };
                            assert(o[q] == s);
                            assert(o.contains(s));
                            assert(o.to_set().contains(s));
                        }
                    }
                    if all.take(i + 1).contains(s) {
                        if s != x@ {
                            assert(all.take(i as int).to_set().contains(s));
                            assert(o.to_set().contains(s));
                            let p = choose|p: int| 0 <= p < o.len() && o[p] == s;
                            let q = if p < j { p } else { p + 1 };
                            assert(n[q] == s);
                        } else {
                            assert(n[j as int] == s);
                        }
                    }
                }
            }
        }
    }
    assert(all.take(v@.len() as int) =~= all);
    out
}

} // verus!
