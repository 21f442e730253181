//! Filesystem paths as sequences of components.
//!
//! A path is a vector of component strings; its mathematical view is a
//! sequence of character sequences.  Subtree operations on the
//! filesystem model are all phrased with the prefix order on these
//! views.

use vstd::prelude::*;

verus! {

/// Does `k` lie at or below `base` (is `base` a component-wise prefix of `k`)?
pub open spec fn starts_with(k: Seq<Seq<char>>, base: Seq<Seq<char>>) -> bool {
    base.len() <= k.len() && k.subrange(0, base.len() as int) == base
}

/// Every path lies below itself.
pub proof fn lemma_starts_with_self(p: Seq<Seq<char>>)
    ensures
        starts_with(p, p),
{
    assert(p.subrange(0, p.len() as int) =~= p);
}

/// The deep view of a path vector indexes to the views of its components.
pub proof fn lemma_path_len(v: &Vec<String>)
    ensures
        v.deep_view().len() == v@.len(),
{
}

/// The deep view of a path vector indexes to the views of its components.
pub proof fn lemma_path_index(v: &Vec<String>, i: int)
    requires
        0 <= i < v@.len(),
    ensures
        v.deep_view()[i] == v@[i]@,
        v.deep_view().len() == v@.len(),
{
}

/// Deep views of path vectors are determined component by component.
pub proof fn lemma_path_ext(a: &Vec<String>, b: &Vec<String>)
    requires
        a@.len() == b@.len(),
        forall|i: int| 0 <= i < a@.len() ==> a@[i]@ == b@[i]@,
    ensures
        a.deep_view() == b.deep_view(),
{
    assert forall|i: int| 0 <= i < a@.len() implies a.deep_view()[i] == b.deep_view()[i] by {
        lemma_path_index(a, i);
        lemma_path_index(b, i);
    }
    assert(a.deep_view() =~= b.deep_view());
}

/// Compare one component of each of two paths.
fn vec_index_eq(a: &Vec<String>, b: &Vec<String>, i: usize) -> (r: bool)
    requires
        i < a@.len(),
        i < b@.len(),
    ensures
        r == (a@[i as int]@ == b@[i as int]@),
{
    let x: &String = &a[i];
    let y: &String = &b[i];
    x.as_str().to_owned() == y.as_str().to_owned()
}

/// Compare two paths component by component.
pub fn path_eq(a: &Vec<String>, b: &Vec<String>) -> (r: bool)
    ensures
        r == (a.deep_view() == b.deep_view()),
{
    if a.len() != b.len() {
        proof {
            lemma_path_len(a);
            lemma_path_len(b);
        }
        return false;
    }
    let n = a.len();
    let mut i: usize = 0;
    while i < n
        invariant
            0 <= i <= n,
            n == a.len() == b.len(),
            forall|k: int| 0 <= k < i ==> a@[k]@ == b@[k]@,
        decreases n - i,
    {
        if !vec_index_eq(a, b, i) {
            proof {
                lemma_path_index(a, i as int);
                lemma_path_index(b, i as int);
            }
            return false;
        }
        i = i + 1;
    }
    proof {
        lemma_path_ext(a, b);
    }
    true
}

/// Does `k` lie at or below `base`?
pub fn path_starts_with(k: &Vec<String>, base: &Vec<String>) -> (r: bool)
    ensures
        r == starts_with(k.deep_view(), base.deep_view()),
{
    if k.len() < base.len() {
        proof {
            lemma_path_len(k);
            lemma_path_len(base);
        }
        return false;
    }
    let n = base.len();
    let mut i: usize = 0;
    while i < n
        invariant
            0 <= i <= n,
            n == base.len() <= k.len(),
            forall|j: int| 0 <= j < i ==> k@[j]@ == base@[j]@,
        decreases n - i,
    {
        if !vec_index_eq(k, base, i) {
            proof {
                lemma_path_index(k, i as int);
                lemma_path_index(base, i as int);
                if starts_with(k.deep_view(), base.deep_view()) {
                    assert(k.deep_view().subrange(0, n as int)[i as int] == k.deep_view()[
                        i as int
                    ]);
                }
            }
            return false;
        }
        i = i + 1;
    }
    proof {
        assert forall|j: int| 0 <= j < n implies k.deep_view().subrange(0, n as int)[j]
            == base.deep_view()[j] by {
            lemma_path_index(k, j);
            lemma_path_index(base, j);
        }
        assert(k.deep_view().subrange(0, n as int) =~= base.deep_view());
    }
    true
}

/// Copy a path.
pub fn path_clone(p: &Vec<String>) -> (r: Vec<String>)
    ensures
        r@ == p@,
        r.deep_view() == p.deep_view(),
{
    let mut r: Vec<String> = Vec::new();
    let n = p.len();
    let mut i: usize = 0;
    while i < n
        invariant
            0 <= i <= n,
            n == p.len(),
            r.len() == i,
            forall|k: int| 0 <= k < i ==> r@[k] == p@[k],
        decreases n - i,
    {
        r.push(p[i].clone());
        i = i + 1;
    }
    proof {
        assert(r@ =~= p@);
    }
    r
}

/// The path one component below `p`.
pub fn path_push(p: &Vec<String>, comp: &str) -> (r: Vec<String>)
    ensures
        r.deep_view() == p.deep_view().push(comp@),
{
    let mut r = path_clone(p);
    r.push(comp.to_owned());
    proof {
        assert forall|i: int| 0 <= i < r@.len() implies r.deep_view()[i] == p.deep_view().push(
            comp@,
        )[i] by {
            lemma_path_index(&r, i);
            if i < p@.len() {
                lemma_path_index(p, i);
            }
        }
        lemma_path_index(&r, p@.len() as int);
        assert(r.deep_view() =~= p.deep_view().push(comp@));
    }
    r
}

/// The parent of a nonempty path.
pub fn path_parent(p: &Vec<String>) -> (r: Vec<String>)
    requires
        p.len() >= 1,
    ensures
        r.deep_view() == p.deep_view().drop_last(),
{
    let mut r = path_clone(p);
    let _ = r.pop();
    proof {
        assert forall|i: int| 0 <= i < r@.len() implies r.deep_view()[i]
            == p.deep_view().drop_last()[i] by {
            lemma_path_index(&r, i);
            lemma_path_index(p, i);
        }
        assert(r.deep_view() =~= p.deep_view().drop_last());
    }
    r
}

/// Rewrite `k`, which lies below a prefix of length `from_len`, to lie
/// below `to` instead: the result is `to` followed by the tail of `k`.
pub fn path_replace_prefix(k: &Vec<String>, from_len: usize, to: &Vec<String>) -> (r: Vec<String>)
    requires
        from_len <= k.len(),
    ensures
        r.deep_view() == to.deep_view() + k.deep_view().skip(from_len as int),
{
    let mut r = path_clone(to);
    let n = k.len();
    let mut i: usize = from_len;
    while i < n
        invariant
            from_len <= i <= n,
            n == k.len(),
            r.len() == to.len() + i - from_len,
            forall|j: int| 0 <= j < to.len() ==> r@[j] == to@[j],
            forall|j: int| to.len() <= j < r.len() ==> r@[j] == k@[j - to.len() + from_len],
        decreases n - i,
    {
        r.push(k[i].clone());
        i = i + 1;
    }
    proof {
        assert forall|j: int| 0 <= j < r@.len() implies r.deep_view()[j] == (to.deep_view()
            + k.deep_view().skip(from_len as int))[j] by {
            lemma_path_index(&r, j);
            if j < to@.len() {
                lemma_path_index(to, j);
            } else {
                lemma_path_index(k, j - to@.len() + from_len);
            }
        }
        assert(r.deep_view() =~= to.deep_view() + k.deep_view().skip(from_len as int));
    }
    r
}


/// Prefixes compose: what lies below `b` lies below anything `b` lies below.
pub proof fn lemma_starts_with_trans(k: Seq<Seq<char>>, b: Seq<Seq<char>>, a: Seq<Seq<char>>)
    requires
        starts_with(k, b),
        starts_with(b, a),
    ensures
        starts_with(k, a),
{
    assert forall|i: int| 0 <= i < a.len() implies k.subrange(0, a.len() as int)[i] == a[i] by {
        assert(k.subrange(0, b.len() as int)[i] == k[i]);
        assert(b.subrange(0, a.len() as int)[i] == b[i]);
    }
    assert(k.subrange(0, a.len() as int) =~= a);
}

} // verus!
