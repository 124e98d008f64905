//! Permutations of the node indices `0`, `1`, ... below a node count.

use crate::error::ProtocolError;
use crate::rng::shuffle;
use rand::rngs::StdRng;
use vstd::prelude::*;
use vstd::seq_lib::*;

verus! {

/// Whether a sequence holds each index below its length exactly once: every
/// entry is below the length, and no two entries are equal.
pub open spec fn is_permutation(p: Seq<usize>) -> bool {
    &&& forall|i: int| 0 <= i < p.len() ==> (#[trigger] p[i]) < p.len()
    &&& forall|i: int, j: int| 0 <= i < j < p.len() ==> p[i] != p[j]
}

/// The permutation of `n` indices that moves nothing.
pub open spec fn identity_map(n: nat) -> Seq<usize> {
    Seq::new(n, |i: int| i as usize)
}

/// First `p`, and `q` on what `p` gives: the entry at `i` is `q[p[i]]`.
pub open spec fn composed(p: Seq<usize>, q: Seq<usize>) -> Seq<usize> {
    Seq::new(p.len(), |i: int| q[p[i] as int])
}

/// The permutation that undoes `p`: the entry at `v` is the place at which `p`
/// holds `v`.
pub open spec fn inverted(p: Seq<usize>) -> Seq<usize> {
    Seq::new(p.len(), |v: int| p.index_of(v as usize) as usize)
}

/// The indices below `n`, as a set.
pub open spec fn indices_below(n: nat) -> Set<usize> {
    Set::new(|v: usize| v < n)
}

proof fn lemma_indices_below(n: nat)
    requires
        n <= usize::MAX,
    ensures
        indices_below(n).finite(),
        indices_below(n).len() == n,
    decreases n,
{
    if n == 0 {
        assert(indices_below(n) =~= Set::<usize>::empty());
    } else {
        lemma_indices_below((n - 1) as nat);
        assert(indices_below(n) =~= indices_below((n - 1) as nat).insert((n - 1) as usize));
    }
}

/// A permutation reaches every index: each index below the length stands at
/// some place.
pub proof fn lemma_permutation_is_onto(p: Seq<usize>)
    requires
        is_permutation(p),
        p.len() <= usize::MAX,
    ensures
        forall|v: usize| v < p.len() ==> #[trigger] p.contains(v),
{
    let n = p.len();
    assert(p.no_duplicates());
    p.unique_seq_to_set();
    lemma_indices_below(n);
    seq_to_set_is_finite(p);
    assert(p.to_set().subset_of(indices_below(n))) by {
        assert forall|v: usize| p.to_set().contains(v) implies indices_below(n).contains(v) by {
            let i = choose|i: int| 0 <= i < p.len() && p[i] == v;
            assert(p[i] < n);
        }
    }
    vstd::set_lib::lemma_subset_equality(p.to_set(), indices_below(n));
    assert forall|v: usize| v < n implies #[trigger] p.contains(v) by {
        assert(indices_below(n).contains(v));
        assert(p.to_set().contains(v));
    }
}

/// What undoing means: `inverted(p)` is a permutation of the same length, it
/// leads back from every entry of `p` to the place of that entry, and `p`
/// leads back from every entry of `inverted(p)`.
pub proof fn lemma_inverted(p: Seq<usize>)
    requires
        is_permutation(p),
        p.len() <= usize::MAX,
    ensures
        is_permutation(inverted(p)),
        inverted(p).len() == p.len(),
        forall|i: int| 0 <= i < p.len() ==> inverted(p)[(#[trigger] p[i]) as int] == i,
        forall|v: int| 0 <= v < p.len() ==> p[(#[trigger] inverted(p)[v]) as int] == v,
{
    let q = inverted(p);
    lemma_permutation_is_onto(p);
    assert forall|v: int| 0 <= v < p.len() implies 0 <= (#[trigger] q[v]) < p.len() && p[q[v] as int]
        == v by {
        assert(p.contains(v as usize));
    }
    assert forall|i: int| 0 <= i < p.len() implies q[(#[trigger] p[i]) as int] == i by {
        let v = p[i];
        let k = p.index_of(v);
        assert(0 <= k < p.len() && p[k] == v);
        if k < i {
            assert(p[k] != p[i]);
        } else if i < k {
            assert(p[i] != p[k]);
        }
    }
    assert forall|v: int, w: int| 0 <= v < w < q.len() implies q[v] != q[w] by {
        assert(p[q[v] as int] == v);
        assert(p[q[w] as int] == w);
    }
}

/// Composing two permutations of one length gives a permutation of that length.
pub proof fn lemma_composed_is_permutation(p: Seq<usize>, q: Seq<usize>)
    requires
        is_permutation(p),
        is_permutation(q),
        p.len() == q.len(),
    ensures
        is_permutation(composed(p, q)),
        composed(p, q).len() == p.len(),
{
    let r = composed(p, q);
    assert forall|i: int, j: int| 0 <= i < j < r.len() implies r[i] != r[j] by {
        let a = p[i] as int;
        let b = p[j] as int;
        assert(a != b);
        if a < b {
            assert(q[a] != q[b]);
        } else {
            assert(q[b] != q[a]);
        }
    }
}

/// Undoing a permutation and going on with it, in either order, moves nothing.
pub proof fn lemma_inverse_cancels(p: Seq<usize>)
    requires
        is_permutation(p),
        p.len() <= usize::MAX,
    ensures
        composed(p, inverted(p)) == identity_map(p.len()),
        composed(inverted(p), p) == identity_map(p.len()),
{
    lemma_inverted(p);
    assert(composed(p, inverted(p)) =~= identity_map(p.len()));
    assert(composed(inverted(p), p) =~= identity_map(p.len()));
}

/// Undoing twice is doing: the inverse of the inverse is the permutation.
pub proof fn lemma_inverted_twice(p: Seq<usize>)
    requires
        is_permutation(p),
        p.len() <= usize::MAX,
    ensures
        inverted(inverted(p)) == p,
{
    let q = inverted(p);
    lemma_inverted(p);
    lemma_inverted(q);
    let r = inverted(q);
    assert forall|v: int| 0 <= v < p.len() implies r[v] == p[v] by {
        let a = r[v] as int;
        let b = p[v] as int;
        assert(q[a] == v);
        assert(q[b] == v);
        if a < b {
            assert(q[a] != q[b]);
        } else if b < a {
            assert(q[b] != q[a]);
        }
    }
    assert(r =~= p);
}

/// Going on with `s` and undoing `s` right after leaves what came before.
pub proof fn lemma_composed_cancels_behind(p: Seq<usize>, s: Seq<usize>)
    requires
        is_permutation(p),
        is_permutation(s),
        p.len() == s.len(),
        p.len() <= usize::MAX,
    ensures
        composed(composed(p, s), inverted(s)) == p,
{
    lemma_inverted(s);
    assert(composed(composed(p, s), inverted(s)) =~= p);
}

/// A bijection on the node indices below its length.
pub struct Permutation {
    images: Vec<usize>,
}

impl View for Permutation {
    type V = Seq<usize>;

    /// The images in order: the entry at `i` is where the permutation sends `i`.
    closed spec fn view(&self) -> Seq<usize> {
        self.images@
    }
}

impl Permutation {
    /// What holds of every value of this type: it is a permutation.
    #[verifier::type_invariant]
    pub open spec fn well_formed(self) -> bool {
        is_permutation(self@)
    }

    /// Checks a sequence of images and makes a permutation of it. Fails with
    /// `NotABijection` exactly on a sequence that does not hold each index
    /// below its length once.
    pub fn new(images: Vec<usize>) -> (made: Result<Permutation, ProtocolError>)
        ensures
            is_permutation(images@) ==> made is Ok && made->Ok_0@ == images@,
            !is_permutation(images@) ==> made == Err::<Permutation, ProtocolError>(
                ProtocolError::NotABijection,
            ),
    {
        let n: usize = images.len();
        let mut seen: Vec<bool> = Vec::new();
        let mut k: usize = 0;
        while k < n
            invariant
                k <= n,
                seen@.len() == k,
                forall|v: int| 0 <= v < k ==> !seen@[v],
            decreases n - k,
        {
            seen.push(false);
            k = k + 1;
        }
        let mut i: usize = 0;
        while i < n
            invariant
                i <= n,
                n == images@.len(),
                seen@.len() == n,
                forall|j: int| 0 <= j < i ==> (#[trigger] images@[j]) < n,
                forall|j: int, l: int| 0 <= j < l < i ==> images@[j] != images@[l],
                forall|v: int|
                    0 <= v < n ==> (#[trigger] seen@[v] <==> exists|j: int|
                        0 <= j < i && images@[j] == v),
            decreases n - i,
        {
            let v: usize = images[i];
            if v >= n {
                return Err(ProtocolError::NotABijection);
            }
            if seen[v] {
                proof {
                    let j = choose|j: int| 0 <= j < i && images@[j] == v;
                    assert(images@[j] == images@[i as int]);
                }
                return Err(ProtocolError::NotABijection);
            }
            seen.set(v, true);
            proof {
                assert forall|w: int| 0 <= w < n implies (#[trigger] seen@[w] <==> exists|j: int|
                    0 <= j < i + 1 && images@[j] == w) by {
                    if w == v {
                        assert(images@[i as int] == w);
                    } else {
                        if seen@[w] {
                            let j = choose|j: int| 0 <= j < i && images@[j] == w;
                            assert(0 <= j < i + 1 && images@[j] == w);
                        }
                    }
                }
            }
            i = i + 1;
        }
        Ok(Permutation { images })
    }

    /// The permutation of `n` indices that moves nothing.
    pub fn identity(n: usize) -> (made: Permutation)
        ensures
            made@ == identity_map(n as nat),
    {
        let mut images: Vec<usize> = Vec::new();
        let mut i: usize = 0;
        while i < n
            invariant
                i <= n,
                images@ == identity_map(i as nat),
            decreases n - i,
        {
            images.push(i);
            assert(images@ =~= identity_map((i + 1) as nat));
            i = i + 1;
        }
        Permutation { images }
    }

    /// The number of indices that the permutation acts on.
    pub fn len(&self) -> (n: usize)
        ensures
            n == self@.len(),
    {
        self.images.len()
    }

    /// Where the permutation sends `i`, or `None` for an `i` that it does not
    /// act on.
    pub fn image(&self, i: usize) -> (found: Option<usize>)
        ensures
            found == if i < self@.len() {
                Some(self@[i as int])
            } else {
                None::<usize>
            },
    {
        if i < self.images.len() {
            Some(self.images[i])
        } else {
            None
        }
    }

    /// The images in order, borrowed.
    pub fn as_slice(&self) -> (images: &[usize])
        ensures
            images@ == self@,
    {
        self.images.as_slice()
    }

    /// The images in order, as they go into a transcript.
    pub fn to_vec(&self) -> (images: Vec<usize>)
        ensures
            images@ == self@,
    {
        self.images.clone()
    }
}

impl Clone for Permutation {
    fn clone(&self) -> (copy: Permutation)
        ensures
            copy@ == self@,
    {
        proof {
            use_type_invariant(self);
        }
        Permutation { images: self.images.clone() }
    }
}

/// A sequence with the same entries as the identity on `n` indices, each as
/// often, is a permutation of `n` indices and holds every index once.
proof fn lemma_reordered_identity(p: Seq<usize>, n: nat)
    requires
        n <= usize::MAX,
        p.to_multiset() == identity_map(n).to_multiset(),
    ensures
        p.len() == n,
        is_permutation(p),
        forall|v: usize| v < n ==> #[trigger] p.to_multiset().count(v) == 1,
{
    broadcast use group_to_multiset_ensures;

    let id = identity_map(n);
    assert(p.len() == n) by {
        assert(p.to_multiset().len() == p.len());
        assert(id.to_multiset().len() == id.len());
    }
    assert(id.no_duplicates());
    id.lemma_multiset_has_no_duplicates();
    p.lemma_multiset_has_no_duplicates_conv();
    assert forall|i: int| 0 <= i < p.len() implies (#[trigger] p[i]) < p.len() by {
        assert(p.contains(p[i]));
        assert(id.to_multiset().count(p[i]) > 0);
        assert(id.contains(p[i]));
    }
    assert forall|v: usize| v < n implies #[trigger] p.to_multiset().count(v) == 1 by {
        assert(id[v as int] == v);
        assert(id.contains(v));
    }
}

/// A random permutation of `n` indices: the identity, shuffled. Whatever the
/// generator gives, the result holds each index below `n` exactly once.
pub fn random_permutation(rng: &mut StdRng, n: usize) -> (drawn: Permutation)
    ensures
        drawn@.len() == n,
        is_permutation(drawn@),
        forall|v: usize| v < n ==> #[trigger] drawn@.to_multiset().count(v) == 1,
{
    let Permutation { images } = Permutation::identity(n);
    let mut images = images;
    shuffle(rng, &mut images);
    proof {
        lemma_reordered_identity(images@, n as nat);
    }
    Permutation { images }
}

/// First `p`, and `q` on what `p` gives. Fails with `SizeMismatch` exactly
/// where the two act on different numbers of indices.
pub fn compose(p: &Permutation, q: &Permutation) -> (made: Result<Permutation, ProtocolError>)
    ensures
        p@.len() == q@.len() ==> made is Ok && made->Ok_0@ == composed(p@, q@) && is_permutation(
            made->Ok_0@,
        ),
        p@.len() != q@.len() ==> made == Err::<Permutation, ProtocolError>(
            ProtocolError::SizeMismatch,
        ),
{
    proof {
        use_type_invariant(p);
        use_type_invariant(q);
    }
    let n: usize = p.images.len();
    if q.images.len() != n {
        return Err(ProtocolError::SizeMismatch);
    }
    let mut images: Vec<usize> = Vec::new();
    let mut i: usize = 0;
    while i < n
        invariant
            i <= n,
            n == p.images@.len(),
            n == q.images@.len(),
            is_permutation(p.images@),
            images@ == composed(p.images@, q.images@).take(i as int),
        decreases n - i,
    {
        let via: usize = p.images[i];
        images.push(q.images[via]);
        assert(images@ =~= composed(p.images@, q.images@).take(i + 1));
        i = i + 1;
    }
    proof {
        assert(images@ =~= composed(p@, q@));
        lemma_composed_is_permutation(p@, q@);
    }
    Ok(Permutation { images })
}

/// The permutation that undoes `p`.
pub fn inverse(p: &Permutation) -> (made: Permutation)
    ensures
        made@ == inverted(p@),
        is_permutation(made@),
{
    let n: usize = p.images.len();
    proof {
        use_type_invariant(p);
        lemma_inverted(p@);
    }
    let mut images: Vec<usize> = Vec::new();
    let mut k: usize = 0;
    while k < n
        invariant
            k <= n,
            images@.len() == k,
        decreases n - k,
    {
        images.push(0);
        k = k + 1;
    }
    let mut i: usize = 0;
    while i < n
        invariant
            i <= n,
            n == p.images@.len(),
            images@.len() == n,
            is_permutation(p.images@),
            forall|j: int| 0 <= j < i ==> images@[(#[trigger] p.images@[j]) as int] == j,
        decreases n - i,
    {
        let v: usize = p.images[i];
        images.set(v, i);
        i = i + 1;
    }
    proof {
        let q = inverted(p@);
        assert forall|v: int| 0 <= v < n implies images@[v] == q[v] by {
            let j = q[v] as int;
            assert(p@[j] == v);
            assert(images@[p.images@[j] as int] == j);
        }
        assert(images@ =~= q);
    }
    Permutation { images }
}

} // verus!
