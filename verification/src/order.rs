//! The order of `String`s (lexicographic by Unicode scalar value, which is
//! the byte order of their UTF-8 encodings) and sorted sets of strings.

use vstd::prelude::*;

verus! {

/// `a < b` for strings: lexicographic order of their characters.
pub open spec fn seq_lt(a: Seq<char>, b: Seq<char>) -> bool
    decreases a.len(),
{
    if a.len() == 0 {
        b.len() > 0
    } else if b.len() == 0 {
        false
    } else if a[0] != b[0] {
        a[0] < b[0]
    } else {
        seq_lt(a.drop_first(), b.drop_first())
    }
}

pub proof fn lemma_lt_irreflexive(a: Seq<char>)
    ensures
        !seq_lt(a, a),
    decreases a.len(),
{
    if a.len() > 0 {
        lemma_lt_irreflexive(a.drop_first());
    }
}

pub proof fn lemma_lt_asymmetric(a: Seq<char>, b: Seq<char>)
    ensures
        seq_lt(a, b) ==> !seq_lt(b, a),
    decreases a.len(),
{
    if a.len() > 0 && b.len() > 0 && a[0] == b[0] {
        lemma_lt_asymmetric(a.drop_first(), b.drop_first());
    }
}

pub proof fn lemma_lt_total(a: Seq<char>, b: Seq<char>)
    ensures
        a != b ==> seq_lt(a, b) || seq_lt(b, a),
    decreases a.len(),
{
    if a.len() > 0 && b.len() > 0 && a[0] == b[0] {
        lemma_lt_total(a.drop_first(), b.drop_first());
        if a.drop_first() == b.drop_first() {
            assert(a =~= seq![a[0]] + a.drop_first());
            assert(b =~= seq![b[0]] + b.drop_first());
        }
    } else if a.len() == 0 && b.len() == 0 {
        assert(a =~= b);
    }
}

pub proof fn lemma_lt_transitive(a: Seq<char>, b: Seq<char>, c: Seq<char>)
    requires
        seq_lt(a, b),
        seq_lt(b, c),
    ensures
        seq_lt(a, c),
    decreases a.len(),
{
    if a.len() > 0 && b.len() > 0 && c.len() > 0 && a[0] == b[0] && b[0] == c[0] {
        lemma_lt_transitive(a.drop_first(), b.drop_first(), c.drop_first());
    }
}

/// The strings held as character vectors.
pub open spec fn char_vecs(v: Seq<Vec<char>>) -> Seq<Seq<char>> {
    v.map_values(|x: Vec<char>| x@)
}

pub proof fn lemma_members_push(a: Seq<Seq<char>>, b: Seq<Seq<char>>, x: Seq<char>)
    requires
        same_members(a, b),
    ensures
        same_members(a.push(x), b.push(x)),
{
    assert forall|y: Seq<char>| a.push(x).contains(y) implies b.push(x).contains(y) by {
        let k = choose|k: int| 0 <= k < a.push(x).len() && a.push(x)[k] == y;
        if k < a.len() {
            assert(a.contains(y));
            let j = choose|j: int| 0 <= j < b.len() && b[j] == y;
            assert(b.push(x)[j] == y);
        } else {
            assert(b.push(x)[b.len() as int] == y);
        }
    }
    assert forall|y: Seq<char>| b.push(x).contains(y) implies a.push(x).contains(y) by {
        let k = choose|k: int| 0 <= k < b.push(x).len() && b.push(x)[k] == y;
        if k < b.len() {
            assert(b.contains(y));
            let j = choose|j: int| 0 <= j < a.len() && a[j] == y;
            assert(a.push(x)[j] == y);
        } else {
            assert(a.push(x)[a.len() as int] == y);
        }
    }
}

pub proof fn lemma_members_trans(a: Seq<Seq<char>>, b: Seq<Seq<char>>, c: Seq<Seq<char>>)
    requires
        same_members(a, b),
        same_members(b, c),
    ensures
        same_members(a, c),
{
}

/// Strictly increasing: a sorted sequence without repetitions.
pub open spec fn strictly_sorted(s: Seq<Seq<char>>) -> bool {
    forall|i: int, j: int| 0 <= i < j < s.len() ==> seq_lt(#[trigger] s[i], #[trigger] s[j])
}

/// `s` lists exactly the members of `t`.
pub open spec fn same_members(s: Seq<Seq<char>>, t: Seq<Seq<char>>) -> bool {
    forall|x: Seq<char>| s.contains(x) <==> t.contains(x)
}

/// The strictly sorted list of the members of `t`: what collecting `t` into
/// a `BTreeSet<String>` and back into a `Vec` yields.
pub open spec fn is_sorted_set_of(s: Seq<Seq<char>>, t: Seq<Seq<char>>) -> bool {
    strictly_sorted(s) && same_members(s, t)
}

/// Two strictly sorted lists with the same members are equal: the sorted
/// set of a list is unique, so `is_sorted_set_of` pins its result down.
pub proof fn lemma_sorted_set_unique(s: Seq<Seq<char>>, u: Seq<Seq<char>>)
    requires
        strictly_sorted(s),
        strictly_sorted(u),
        same_members(s, u),
    ensures
        s == u,
    decreases s.len(),
{
    if s.len() == 0 {
        if u.len() > 0 {
            assert(u.contains(u[0]));
        }
        assert(s =~= u);
    } else if u.len() == 0 {
        assert(s.contains(s[0]));
    } else {
        assert(s.contains(s[0]));
        assert(u.contains(u[0]));
        let i = choose|i: int| 0 <= i < s.len() && s[i] == u[0];
        let j = choose|j: int| 0 <= j < u.len() && u[j] == s[0];
        if s[0] != u[0] {
            assert(seq_lt(s[0], s[i]));
            assert(seq_lt(u[0], u[j]));
            lemma_lt_asymmetric(s[0], u[0]);
        }
        let s1 = s.drop_first();
        let u1 = u.drop_first();
        assert forall|x: Seq<char>| s1.contains(x) implies u1.contains(x) by {
            let k = choose|k: int| 0 <= k < s1.len() && s1[k] == x;
            assert(s[k + 1] == x);
            assert(seq_lt(s[0], x));
            lemma_lt_irreflexive(x);
            assert(s.contains(x));
            let m = choose|m: int| 0 <= m < u.len() && u[m] == x;
            assert(m != 0);
            assert(u1[m - 1] == x);
        }
        assert forall|x: Seq<char>| u1.contains(x) implies s1.contains(x) by {
            let k = choose|k: int| 0 <= k < u1.len() && u1[k] == x;
            assert(u[k + 1] == x);
            assert(seq_lt(u[0], x));
            lemma_lt_irreflexive(x);
            assert(u.contains(x));
            let m = choose|m: int| 0 <= m < s.len() && s[m] == x;
            assert(m != 0);
            assert(s1[m - 1] == x);
        }
        assert(strictly_sorted(s1)) by {
            assert forall|a: int, b: int| 0 <= a < b < s1.len() implies seq_lt(
                #[trigger] s1[a],
                #[trigger] s1[b],
            ) by {
                assert(s1[a] == s[a + 1] && s1[b] == s[b + 1]);
            }
        }
        assert(strictly_sorted(u1)) by {
            assert forall|a: int, b: int| 0 <= a < b < u1.len() implies seq_lt(
                #[trigger] u1[a],
                #[trigger] u1[b],
            ) by {
                assert(u1[a] == u[a + 1] && u1[b] == u[b + 1]);
            }
        }
        lemma_sorted_set_unique(s1, u1);
        assert(s =~= seq![s[0]] + s1);
        assert(u =~= seq![u[0]] + u1);
    }
}

/// `a < b` for strings given by their characters.
pub fn chars_lt(a: &[char], b: &[char]) -> (r: bool)
    ensures
        r == seq_lt(a@, b@),
{
    let mut i: usize = 0;
    assert(a@.skip(0) =~= a@);
    assert(b@.skip(0) =~= b@);
    assert(a@.take(0) =~= b@.take(0));
    while i < a.len() && i < b.len()
        invariant
            i <= a@.len(),
            i <= b@.len(),
            a@.take(i as int) == b@.take(i as int),
            seq_lt(a@, b@) == seq_lt(a@.skip(i as int), b@.skip(i as int)),
        decreases a@.len() - i,
    {
        let ghost sa = a@.skip(i as int);
        let ghost sb = b@.skip(i as int);
        assert(sa[0] == a@[i as int]);
        assert(sb[0] == b@[i as int]);
        if a[i] != b[i] {
            return a[i] < b[i];
        }
        assert(sa.drop_first() =~= a@.skip(i + 1));
        assert(sb.drop_first() =~= b@.skip(i + 1));
        assert(a@.take(i + 1) =~= a@.take(i as int).push(a@[i as int]));
        assert(b@.take(i + 1) =~= b@.take(i as int).push(b@[i as int]));
        i = i + 1;
    }
    i >= a.len() && i < b.len()
}

/// Inserts `x` into a strictly sorted list unless it is already there.
pub fn sorted_insert(set: &mut Vec<Vec<char>>, x: Vec<char>)
    requires
        strictly_sorted(char_vecs(old(set)@)),
    ensures
        strictly_sorted(char_vecs(final(set)@)),
        same_members(
            char_vecs(final(set)@),
            char_vecs(old(set)@).push(x@),
        ),
{
    let ghost old_view = char_vecs(set@);
    let mut i: usize = 0;
    while i < set.len() && chars_lt(set[i].as_slice(), x.as_slice())
        invariant
            i <= set@.len(),
            char_vecs(set@) == old_view,
            strictly_sorted(old_view),
            forall|k: int| 0 <= k < i ==> seq_lt(#[trigger] old_view[k], x@),
        decreases set@.len() - i,
    {
        i = i + 1;
    }
    if i < set.len() && crate::text::chars_eq(set[i].as_slice(), x.as_slice()) {
        assert(old_view.push(x@)[old_view.len() as int] == x@);
        assert forall|y: Seq<char>| old_view.push(x@).contains(y) implies old_view.contains(y) by {
            if y == x@ {
                assert(old_view[i as int] == x@);
            } else {
                let k = choose|k: int| 0 <= k < old_view.push(x@).len() && old_view.push(x@)[k] == y;
                assert(old_view[k] == y);
            }
        }
        assert forall|y: Seq<char>| old_view.contains(y) implies old_view.push(x@).contains(y) by {
            let k = choose|k: int| 0 <= k < old_view.len() && old_view[k] == y;
            assert(old_view.push(x@)[k] == y);
        }
        return ;
    }
    let ghost xv = x@;
    proof {
        if i < set@.len() {
            lemma_lt_total(old_view[i as int], xv);
        }
    }
    set.insert(i, x);
    let ghost nv = char_vecs(set@);
    assert(nv =~= old_view.insert(i as int, xv));
    assert forall|a: int, b: int| 0 <= a < b < nv.len() implies seq_lt(
        #[trigger] nv[a],
        #[trigger] nv[b],
    ) by {
        if b < i {
        } else if b == i {
        } else if a < i {
            if i < old_view.len() {
                lemma_lt_transitive(nv[a], xv, old_view[i as int]);
                if b - 1 > i {
                    lemma_lt_transitive(nv[a], old_view[i as int], old_view[b - 1]);
                }
            }
        } else if a == i {
            if b - 1 > i {
                lemma_lt_transitive(xv, old_view[i as int], old_view[b - 1]);
            }
        } else {
        }
    }
    assert forall|y: Seq<char>| nv.contains(y) <==> old_view.push(xv).contains(y) by {
        if nv.contains(y) {
            let k = choose|k: int| 0 <= k < nv.len() && nv[k] == y;
            if k < i {
                assert(old_view.push(xv)[k] == y);
            } else if k == i {
                assert(old_view.push(xv)[old_view.len() as int] == y);
            } else {
                assert(old_view.push(xv)[k - 1] == y);
            }
        }
        if old_view.push(xv).contains(y) {
            let k = choose|k: int| 0 <= k < old_view.push(xv).len() && old_view.push(xv)[k] == y;
            if k == old_view.len() {
                assert(nv[i as int] == y);
            } else if k < i {
                assert(nv[k] == y);
            } else {
                assert(nv[k + 1] == y);
            }
        }
    }
}

} // verus!
