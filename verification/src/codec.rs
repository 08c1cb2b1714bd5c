//! The move codec: each played ply is stored as a single byte, the index of
//! the move in the canonical ordering of the legal moves of the position the
//! ply was made from.
//!
//! A candidate move is plain data `(from, to, promotion)`: origin square
//! (64 stands for a drop without origin), target square, and promotion piece
//! code (0 when the move does not promote).  The canonical ordering sorts the
//! legal moves ascending by origin square, then target square, then
//! promotion piece, realised as an ascending sort of the packed keys
//! `512 * from + 8 * to + promotion`.  The ordering is a pure function of the
//! legal-move set alone, so encoding and decoding agree across processes as
//! long as the ordering rule is unchanged.

use vstd::prelude::*;
use vstd::seq_lib::*;
use vstd::relations::sorted_by;
use vstd::relations::total_ordering;
use vstd::multiset::Multiset;
use crate::CodecError;
use crate::rules::spec_legal_triples;
use crate::rules::spec_apply;
use crate::rules::legal_triples;
use crate::rules::apply_ply;

verus! {

/// A well-formed move triple: origin square (or 64), target square,
/// promotion piece code.
pub open spec fn tri_wf(t: (u8, u8, u8)) -> bool {
    t.0 <= 64 && t.1 <= 63 && t.2 <= 6
}

/// All triples of a sequence are well formed.
pub open spec fn tris_wf(s: Seq<(u8, u8, u8)>) -> bool {
    forall|i: int| 0 <= i < s.len() ==> #[trigger] tri_wf(s[i])
}

/// Packed ordering key of a move triple.
pub open spec fn spec_key(t: (u8, u8, u8)) -> u16 {
    (512 * t.0 + 8 * t.1 + t.2) as u16
}

/// Executable twin of `spec_key`.
pub fn key_of(t: (u8, u8, u8)) -> (r: u16)
    requires
        tri_wf(t),
    ensures
        r == spec_key(t),
{
    512 * (t.0 as u16) + 8 * (t.1 as u16) + (t.2 as u16)
}

/// The packed key determines the triple.
pub proof fn lemma_key_injective(a: (u8, u8, u8), b: (u8, u8, u8))
    requires
        tri_wf(a),
        tri_wf(b),
        spec_key(a) == spec_key(b),
    ensures
        a == b,
{
}

/// Keys of a sequence of triples.
pub open spec fn spec_keys(s: Seq<(u8, u8, u8)>) -> Seq<u16> {
    s.map_values(|t: (u8, u8, u8)| spec_key(t))
}

/// The ascending order on keys.
pub open spec fn key_le() -> spec_fn(u16, u16) -> bool {
    |x: u16, y: u16| x <= y
}

pub proof fn lemma_key_le_total()
    ensures
        total_ordering(key_le()),
{
}

/// The canonical ascending arrangement of a key sequence.
pub open spec fn spec_sort(s: Seq<u16>) -> Seq<u16> {
    s.sort_by(key_le())
}

pub proof fn lemma_spec_sort_ensures(s: Seq<u16>)
    ensures
        spec_sort(s).to_multiset() == s.to_multiset(),
        sorted_by(spec_sort(s), key_le()),
        spec_sort(s).len() == s.len(),
{
    lemma_key_le_total();
    s.lemma_sort_by_ensures(key_le());
    broadcast use vstd::seq_lib::group_to_multiset_ensures;

    assert(spec_sort(s).to_multiset() =~= s.to_multiset());
    assert(spec_sort(s).to_multiset().len() == s.to_multiset().len());
}

/// A sorted sequence is determined by its multiset of elements.
pub proof fn lemma_sorted_unique(a: Seq<u16>, b: Seq<u16>)
    requires
        sorted_by(a, key_le()),
        sorted_by(b, key_le()),
        a.to_multiset() == b.to_multiset(),
    ensures
        a == b,
    decreases a.len(),
{
    broadcast use vstd::seq_lib::group_to_multiset_ensures;

    if a.len() == 0 {
        assert(b.to_multiset().len() == 0);
        assert(a =~= b);
    } else {
        assert(b.to_multiset().len() == a.len());
        assert(b.len() > 0);
        assert(a.contains(a[0]));
        assert(a.to_multiset().count(a[0]) > 0);
        assert(b.to_multiset().count(a[0]) > 0);
        assert(b.contains(a[0]));
        let i = choose|i: int| 0 <= i < b.len() && b[i] == a[0];
        assert(key_le()(b[0], b[i]));
        assert(b.contains(b[0]));
        assert(b.to_multiset().count(b[0]) > 0);
        assert(a.to_multiset().count(b[0]) > 0);
        assert(a.contains(b[0]));
        let j = choose|j: int| 0 <= j < a.len() && a[j] == b[0];
        assert(key_le()(a[0], a[j]));
        assert(a[0] == b[0]);
        let a1 = a.remove(0);
        let b1 = b.remove(0);
        assert(a1.to_multiset() =~= a.to_multiset().remove(a[0]));
        assert(b1.to_multiset() =~= b.to_multiset().remove(b[0]));
        assert(sorted_by(a1, key_le())) by {
            assert forall|x: int, y: int| 0 <= x < y < a1.len() implies key_le()(a1[x], a1[y]) by {
                assert(a1[x] == a[x + 1]);
                assert(a1[y] == a[y + 1]);
            }
        }
        assert(sorted_by(b1, key_le())) by {
            assert forall|x: int, y: int| 0 <= x < y < b1.len() implies key_le()(b1[x], b1[y]) by {
                assert(b1[x] == b[x + 1]);
                assert(b1[y] == b[y + 1]);
            }
        }
        lemma_sorted_unique(a1, b1);
        assert(a =~= b) by {
            assert(forall|k: int| 1 <= k < a.len() ==> a[k] == a1[k - 1] && b[k] == b1[k - 1]);
        }
    }
}

/// The canonical ordering of a legal-move list: its keys, sorted ascending.
pub open spec fn spec_sorted_keys(legal: Seq<(u8, u8, u8)>) -> Seq<u16> {
    spec_sort(spec_keys(legal))
}

/// The byte a move encodes to against a legal-move list: the index of its
/// key in the canonical ordering, or `None` when the move is not in the
/// list.
pub open spec fn spec_encode(legal: Seq<(u8, u8, u8)>, m: (u8, u8, u8)) -> Option<u8> {
    match spec_sorted_keys(legal).index_of_first(spec_key(m)) {
        Some(i) => Some(i as u8),
        None => None,
    }
}

/// The key a byte decodes to against a legal-move list, or `None` when the
/// byte is not an index of the canonical ordering (the decode-stop signal).
pub open spec fn spec_decode(legal: Seq<(u8, u8, u8)>, b: u8) -> Option<u16> {
    let s = spec_sorted_keys(legal);
    if b < s.len() {
        Some(s[b as int])
    } else {
        None
    }
}

/// The position of the decoded move inside the unsorted legal-move list
/// (the first entry whose key matches).
pub open spec fn spec_decode_index(legal: Seq<(u8, u8, u8)>, b: u8) -> Option<int> {
    match spec_decode(legal, b) {
        Some(k) => spec_keys(legal).index_of_first(k),
        None => None,
    }
}

/// Inserts one key into an already sorted vector, keeping it sorted.
fn insert_sorted(out: &mut Vec<u16>, x: u16)
    requires
        sorted_by(old(out)@, key_le()),
    ensures
        sorted_by(final(out)@, key_le()),
        final(out)@.to_multiset() == old(out)@.to_multiset().insert(x),
{
    let mut idx: usize = 0;
    while idx < out.len() && out[idx] <= x
        invariant
            idx <= out@.len(),
            sorted_by(out@, key_le()),
            *out == *old(out),
            forall|j: int| 0 <= j < idx ==> out@[j] <= x,
        decreases out@.len() - idx,
    {
        idx += 1;
    }
    proof {
        assert(idx == out@.len() || out@[idx as int] > x);
    }
    let ghost pre = out@;
    out.insert(idx, x);
    proof {
        let i = idx as int;
        assert(out@ == pre.subrange(0, i) + seq![x] + pre.subrange(i, pre.len() as int)) by {
            assert(out@ =~= pre.insert(i, x));
            pre.insert_ensures(i, x);
            assert(pre.insert(i, x) =~= pre.subrange(0, i) + seq![x] + pre.subrange(
                i,
                pre.len() as int,
            ));
        }
        assert(sorted_by(out@, key_le())) by {
            assert forall|p: int, q: int| 0 <= p < q < out@.len() implies key_le()(
                out@[p],
                out@[q],
            ) by {
                assert(forall|j: int| 0 <= j < i ==> out@[j] == pre[j]);
                assert(out@[i] == x);
                assert(forall|j: int| i < j < out@.len() ==> out@[j] == pre[j - 1]);
                assert(forall|j: int| 0 <= j < i ==> pre[j] <= x);
                assert(forall|j: int| i <= j < pre.len() ==> x <= pre[j]) by {
                    if i < pre.len() {
                        assert(x < pre[i]);
                        assert(forall|j: int| i <= j < pre.len() ==> key_le()(pre[i], pre[j]));
                    }
                }
            }
        }
        assert(out@.to_multiset() == pre.to_multiset().insert(x)) by {
            broadcast use vstd::seq_lib::group_to_multiset_ensures;

            let left = pre.subrange(0, i);
            let mid = seq![x];
            let right = pre.subrange(i, pre.len() as int);
            lemma_multiset_commutative(left + mid, right);
            lemma_multiset_commutative(left, mid);
            lemma_multiset_commutative(left, right);
            assert(pre =~= left + right);
            assert(mid.to_multiset() =~= Multiset::<u16>::empty().insert(x)) by {
                assert(mid.drop_first() =~= Seq::<u16>::empty());
            }
            assert(out@.to_multiset() =~= pre.to_multiset().insert(x));
        }
    }
}

/// Computes the canonical ordering of a legal-move list: the packed keys of
/// its triples, sorted ascending.
pub fn canonical_keys(legal: &Vec<(u8, u8, u8)>) -> (r: Vec<u16>)
    requires
        tris_wf(legal@),
    ensures
        r@ == spec_sorted_keys(legal@),
        r@.len() == legal@.len(),
{
    let mut out: Vec<u16> = Vec::new();
    let mut i: usize = 0;
    proof {
        broadcast use vstd::seq_lib::group_to_multiset_ensures;

        assert(spec_keys(legal@.subrange(0, 0)) =~= Seq::<u16>::empty());
    }
    while i < legal.len()
        invariant
            i <= legal@.len(),
            tris_wf(legal@),
            sorted_by(out@, key_le()),
            out@.to_multiset() == spec_keys(legal@.subrange(0, i as int)).to_multiset(),
        decreases legal@.len() - i,
    {
        let t = legal[i];
        let k = key_of(t);
        insert_sorted(&mut out, k);
        proof {
            broadcast use vstd::seq_lib::group_to_multiset_ensures;

            let pre = legal@.subrange(0, i as int);
            let cur = legal@.subrange(0, i as int + 1);
            assert(cur.drop_last() =~= pre);
            assert(spec_keys(cur).drop_last() =~= spec_keys(pre));
            assert(spec_keys(cur).last() == spec_key(legal@[i as int]));
            assert(spec_keys(cur) =~= spec_keys(pre).push(spec_key(legal@[i as int])));
        }
        i += 1;
    }
    proof {
        assert(legal@.subrange(0, legal@.len() as int) =~= legal@);
        lemma_spec_sort_ensures(spec_keys(legal@));
        lemma_sorted_unique(out@, spec_sorted_keys(legal@));
    }
    out
}

/// Encodes a move against the legal moves of its position: the byte is the
/// index of the move in the canonical ordering.  Fails with `IllegalMove`
/// exactly when the move is not in the list.
pub fn encode_from_legal(legal: &Vec<(u8, u8, u8)>, m: (u8, u8, u8)) -> (r: Result<
    u8,
    CodecError,
>)
    requires
        tris_wf(legal@),
        legal@.len() <= 256,
        tri_wf(m),
    ensures
        match r {
            Ok(b) => spec_encode(legal@, m) == Some(b),
            Err(e) => e == CodecError::IllegalMove && spec_encode(legal@, m) is None
                && !spec_keys(legal@).contains(spec_key(m)),
        },
{
    let keys = canonical_keys(legal);
    let target = key_of(m);
    let mut i: usize = 0;
    proof {
        spec_sorted_keys(legal@).index_of_first_ensures(spec_key(m));
    }
    while i < keys.len()
        invariant
            i <= keys@.len(),
            keys@ == spec_sorted_keys(legal@),
            keys@.len() == legal@.len() <= 256,
            target == spec_key(m),
            forall|j: int| 0 <= j < i ==> keys@[j] != target,
        decreases keys@.len() - i,
    {
        if keys[i] == target {
            proof {
                assert(spec_sorted_keys(legal@).contains(spec_key(m))) by {
                    assert(spec_sorted_keys(legal@)[i as int] == spec_key(m));
                }
                spec_sorted_keys(legal@).index_of_first_ensures(spec_key(m));
                assert(spec_sorted_keys(legal@).index_of_first(spec_key(m)) == Some(i as int));
            }
            return Ok(i as u8);
        }
        i += 1;
    }
    proof {
        assert(!spec_sorted_keys(legal@).contains(spec_key(m))) by {
            assert(forall|j: int|
                0 <= j < spec_sorted_keys(legal@).len() ==> spec_sorted_keys(legal@)[j]
                    != spec_key(m));
        }
        lemma_spec_sort_ensures(spec_keys(legal@));
        broadcast use vstd::seq_lib::group_to_multiset_ensures;

        if spec_keys(legal@).contains(spec_key(m)) {
            assert(spec_keys(legal@).to_multiset().count(spec_key(m)) > 0);
            assert(spec_sorted_keys(legal@).to_multiset().count(spec_key(m)) > 0);
            assert(spec_sorted_keys(legal@).contains(spec_key(m)));
            assert(false);
        }
    }
    Err(CodecError::IllegalMove)
}

/// Decodes a byte against the legal moves of a position: returns the index,
/// in the given legal-move list, of the first move whose key is the byte's
/// entry in the canonical ordering; `None` when the byte is out of range
/// (the benign decode-stop signal).
pub fn decode_from_legal(legal: &Vec<(u8, u8, u8)>, b: u8) -> (r: Option<usize>)
    requires
        tris_wf(legal@),
    ensures
        match r {
            Some(j) => {
                &&& spec_decode_index(legal@, b) == Some(j as int)
                &&& j < legal@.len()
                &&& spec_decode(legal@, b) == Some(spec_key(legal@[j as int]))
            },
            None => spec_decode(legal@, b) is None,
        },
{
    let keys = canonical_keys(legal);
    if (b as usize) >= keys.len() {
        return None;
    }
    let target = keys[b as usize];
    let mut i: usize = 0;
    proof {
        lemma_spec_sort_ensures(spec_keys(legal@));
        broadcast use vstd::seq_lib::group_to_multiset_ensures;

        assert(spec_sorted_keys(legal@)[b as int] == target);
        assert(spec_sorted_keys(legal@).contains(target));
        assert(spec_sorted_keys(legal@).to_multiset().count(target) > 0);
        assert(spec_keys(legal@).to_multiset().count(target) > 0);
        assert(spec_keys(legal@).contains(target));
        spec_keys(legal@).index_of_first_ensures(target);
    }
    while i < legal.len()
        invariant
            i <= legal@.len(),
            tris_wf(legal@),
            target == spec_decode(legal@, b)->Some_0,
            spec_decode(legal@, b) is Some,
            spec_keys(legal@).contains(target),
            forall|j: int| 0 <= j < i ==> spec_keys(legal@)[j] != target,
        decreases legal@.len() - i,
    {
        let k = key_of(legal[i]);
        if k == target {
            proof {
                assert(spec_keys(legal@)[i as int] == spec_key(legal@[i as int]));
                spec_keys(legal@).index_of_first_ensures(target);
                let idx = spec_keys(legal@).index_of_first(target)->Some_0;
                assert(spec_keys(legal@)[idx] == target);
                assert(idx == i as int);
                assert(spec_keys(legal@).index_of_first(target) == Some(i as int));
            }
            return Some(i);
        }
        i += 1;
    }
    proof {
        assert(forall|j: int| 0 <= j < spec_keys(legal@).len() ==> spec_keys(legal@)[j] != target);
        assert(false);
    }
    None
}

/// Round trip of the codec: a legal move encodes to a byte that decodes back
/// to the same move.
pub proof fn lemma_codec_round_trip(legal: Seq<(u8, u8, u8)>, m: (u8, u8, u8))
    requires
        tris_wf(legal),
        legal.len() <= 256,
        legal.contains(m),
    ensures
        spec_encode(legal, m) is Some,
        spec_decode_index(legal, spec_encode(legal, m)->Some_0) is Some,
        legal[spec_decode_index(legal, spec_encode(legal, m)->Some_0)->Some_0] == m,
{
    broadcast use vstd::seq_lib::group_to_multiset_ensures;

    let keys = spec_keys(legal);
    let s = spec_sorted_keys(legal);
    let k = spec_key(m);
    lemma_spec_sort_ensures(keys);
    let wit = choose|i: int| 0 <= i < legal.len() && legal[i] == m;
    assert(keys.len() == legal.len());
    assert(keys[wit] == spec_key(legal[wit]));
    assert(keys[wit] == k);
    assert(keys.contains(k));
    assert(keys.to_multiset().count(k) > 0);
    assert(s.to_multiset().count(k) > 0);
    assert(s.contains(k));
    s.index_of_first_ensures(k);
    let i = s.index_of_first(k)->Some_0;
    assert(s[i] == k);
    assert(spec_encode(legal, m) == Some(i as u8));
    let b = i as u8;
    assert(b as int == i);
    assert(spec_decode(legal, b) == Some(k));
    keys.index_of_first_ensures(k);
    let j = keys.index_of_first(k)->Some_0;
    assert(keys[j] == k);
    assert(spec_decode_index(legal, b) == Some(j));
    assert(spec_key(legal[j]) == spec_key(m));
    assert(tri_wf(legal[j]) && tri_wf(m));
    lemma_key_injective(legal[j], m);
}


/// Encodes a move against a position given as FEN text: the byte is the
/// move's index in the canonical ordering of the position's legal moves.
/// Fails with `BadPosition` when the FEN denotes no valid position, and
/// with `IllegalMove` exactly when the move is not legal there.
pub fn encode_move(fen: &Vec<u8>, mv: (u8, u8, u8)) -> (r: Result<u8, CodecError>)
    requires
        tri_wf(mv),
    ensures
        match spec_legal_triples(fen@) {
            None => r == Err::<u8, CodecError>(CodecError::BadPosition),
            Some(l) => match r {
                Ok(b) => spec_encode(l, mv) == Some(b),
                Err(e) => e == CodecError::IllegalMove && spec_encode(l, mv) is None
                    && !spec_keys(l).contains(spec_key(mv)),
            },
        },
{
    let l = match legal_triples(fen) {
        Some(l) => l,
        None => {
            return Err(CodecError::BadPosition);
        },
    };
    encode_from_legal(&l, mv)
}

/// Decodes a byte against a position given as FEN text: the move at the
/// byte's index in the canonical ordering, or `None` when the byte is out
/// of range or the position is invalid (the decode-stop signal).
pub fn decode_move(fen: &Vec<u8>, b: u8) -> (r: Option<(u8, u8, u8)>)
    ensures
        match spec_legal_triples(fen@) {
            None => r is None,
            Some(l) => match spec_decode_index(l, b) {
                Some(j) => r == Some(l[j]),
                None => r is None,
            },
        },
{
    let l = match legal_triples(fen) {
        Some(l) => l,
        None => {
            return None;
        },
    };
    match decode_from_legal(&l, b) {
        Some(j) => Some(l[j]),
        None => None,
    }
}

/// Plays a legal move on a position given as FEN text, returning the FEN
/// of the resulting position; `None` when the position is invalid or the
/// move is not legal there.
pub fn apply_move(fen: &Vec<u8>, mv: (u8, u8, u8)) -> (r: Option<Vec<u8>>)
    ensures
        match spec_legal_triples(fen@) {
            None => r is None,
            Some(l) => match l.index_of_first(mv) {
                Some(j) => r matches Some(v) && v@ == spec_apply(fen@, j),
                None => r is None,
            },
        },
{
    let l = match legal_triples(fen) {
        Some(l) => l,
        None => {
            return None;
        },
    };
    proof {
        l@.index_of_first_ensures(mv);
    }
    let mut j: usize = 0;
    while j < l.len() && !(l[j].0 == mv.0 && l[j].1 == mv.1 && l[j].2 == mv.2)
        invariant
            j <= l@.len(),
            forall|q: int| 0 <= q < j ==> l@[q] != mv,
        decreases l@.len() - j,
    {
        j += 1;
    }
    if j >= l.len() {
        proof {
            assert(forall|q: int| 0 <= q < l@.len() ==> l@[q] != mv);
            if l@.contains(mv) {
                let w = choose|w: int| 0 <= w < l@.len() && l@[w] == mv;
                assert(false);
            }
            l@.index_of_first_ensures(mv);
        }
        return None;
    }
    proof {
        assert(l@[j as int] == mv);
        l@.index_of_first_ensures(mv);
        let idx = l@.index_of_first(mv)->Some_0;
        assert(l@[idx] == mv);
        assert(idx == j as int);
    }
    Some(apply_ply(fen, j))
}

} // verus!
